//! The client session state: the connection's own identifier and a mirror of
//! the server's roster, rebuilt from the server's notifications. Consuming a
//! server message updates the mirror and says what, if anything, the client
//! should display locally.

use vstd::prelude::*;
use crate::protocol::ServerMessage;
use crate::protocol::ServerMessageView;
use crate::roster::Roster;
use crate::roster::map_of;
use crate::roster::roster_wf;
use crate::server::Condition;

verus! {

/// A local side effect of consuming one server message: something the client
/// shows its user.
#[derive(Debug)]
pub enum DisplayEvent {
    Joined { username: String },
    Left { username: String },
    Chat { username: String, message: String },
}

/// Mathematical shape of a `DisplayEvent`.
pub enum DisplayEventView {
    Joined { username: Seq<char> },
    Left { username: Seq<char> },
    Chat { username: Seq<char>, message: Seq<char> },
}

impl View for DisplayEvent {
    type V = DisplayEventView;

    open spec fn view(&self) -> DisplayEventView {
        match self {
            DisplayEvent::Joined { username } => DisplayEventView::Joined { username: username@ },
            DisplayEvent::Left { username } => DisplayEventView::Left { username: username@ },
            DisplayEvent::Chat { username, message } => DisplayEventView::Chat {
                username: username@,
                message: message@,
            },
        }
    }
}

/// The views of a queue of display events.
pub open spec fn views_of_displays(s: Seq<DisplayEvent>) -> Seq<DisplayEventView> {
    s.map_values(|d: DisplayEvent| d@)
}

/// What consuming one server message left behind: the local displays, in
/// order, and a condition to signal, if any.
#[derive(Debug)]
pub struct ApplyResult {
    pub displays: Vec<DisplayEvent>,
    pub condition: Option<Condition>,
}

/// Mathematical shape of a `Session`.
pub struct SessionView {
    pub self_id: u64,
    pub users: Seq<crate::roster::UserView>,
}

/// The client's session state: its own identifier, as assigned by the server
/// in `InitClient`, and the roster mirror.
#[derive(Debug)]
pub struct Session {
    self_id: u64,
    names: Roster,
}

impl View for Session {
    type V = SessionView;

    closed spec fn view(&self) -> SessionView {
        SessionView { self_id: self.self_id, users: self.names@ }
    }
}

/// What consuming `m` does to session `s0`:
/// - `InitClient` assigns the session's own identifier and replaces the
///   mirror wholesale with the snapshot; nothing is displayed.
/// - `ClientConnected` inserts (or overwrites) the mirror entry and displays
///   that the user joined.
/// - `ClientDisconnected` removes the entry and displays that the user left;
///   for an unknown identifier it only signals.
/// - `ChatMessage` displays `username: text` — unless the sender is the
///   session itself, whose own echo is suppressed, or the sender is unknown,
///   which only signals.
pub open spec fn apply_post(
    s0: SessionView,
    m: ServerMessageView,
    s1: SessionView,
    disp: Seq<DisplayEventView>,
    cond: Option<Condition>,
) -> bool {
    match m {
        ServerMessageView::InitClient { client_id, usernames } => {
            s1.self_id == client_id
            && s1.users == usernames
            && disp == Seq::<DisplayEventView>::empty()
            && cond is None
        },
        ServerMessageView::ClientConnected { client_id, username } => {
            s1.self_id == s0.self_id
            && roster_wf(s1.users)
            && map_of(s1.users) == map_of(s0.users).insert(client_id, username)
            && disp == seq![(DisplayEventView::Joined { username: username })]
            && cond is None
        },
        ServerMessageView::ClientDisconnected { client_id } => {
            if map_of(s0.users).contains_key(client_id) {
                s1.self_id == s0.self_id
                && roster_wf(s1.users)
                && map_of(s1.users) == map_of(s0.users).remove(client_id)
                && disp == seq![
                    (DisplayEventView::Left { username: map_of(s0.users)[client_id] }),
                ]
                && cond is None
            } else {
                s1 == s0
                && disp == Seq::<DisplayEventView>::empty()
                && cond == Some(Condition::UnknownDisconnect)
            }
        },
        ServerMessageView::ChatMessage { client_id, message } => {
            s1 == s0
            && (if !map_of(s0.users).contains_key(client_id) {
                disp == Seq::<DisplayEventView>::empty()
                && cond == Some(Condition::UnknownSender)
            } else if client_id == s0.self_id {
                disp == Seq::<DisplayEventView>::empty() && cond is None
            } else {
                disp == seq![
                    (DisplayEventView::Chat {
                        username: map_of(s0.users)[client_id],
                        message: message,
                    }),
                ] && cond is None
            })
        },
    }
}

impl Session {
    /// Well-formedness: the mirror has no duplicate identifiers.
    pub open spec fn wf(&self) -> bool {
        roster_wf(self@.users)
    }

    /// A fresh session: no identifier assigned yet, empty mirror.
    pub fn new() -> (s: Session)
        ensures
            s@.self_id == 0u64,
            s@.users == Seq::<crate::roster::UserView>::empty(),
            s.wf(),
    {
        Session { self_id: 0, names: Roster::new() }
    }

    /// The identifier the server assigned to this session.
    pub fn self_id(&self) -> (id: u64)
        ensures
            id == self@.self_id,
    {
        self.self_id
    }

    /// The roster mirror.
    pub fn mirror(&self) -> (r: &Roster)
        ensures
            r@ == self@.users,
    {
        &self.names
    }

    /// Consume one server message, in delivery order.
    pub fn apply(&mut self, message: ServerMessage) -> (r: ApplyResult)
        requires
            old(self).wf(),
            (message@ matches ServerMessageView::InitClient { usernames, .. }
                ==> roster_wf(usernames)),
        ensures
            final(self).wf(),
            apply_post(
                old(self)@,
                message@,
                final(self)@,
                views_of_displays(r.displays@),
                r.condition,
            ),
    {
        let ghost mv = message@;
        let mut displays: Vec<DisplayEvent> = Vec::new();
        proof {
            assert(views_of_displays(displays@) =~= Seq::<DisplayEventView>::empty());
        }
        match message {
            ServerMessage::InitClient { client_id, usernames } => {
                self.self_id = client_id;
                self.names = usernames;
                ApplyResult { displays, condition: None }
            },
            ServerMessage::ClientConnected { client_id, username } => {
                self.names.set(client_id, username.clone());
                displays.push(DisplayEvent::Joined { username });
                proof {
                    assert(views_of_displays(displays@)
                        =~= seq![
                            (DisplayEventView::Joined {
                                username: mv->ClientConnected_username,
                            }),
                        ]);
                }
                ApplyResult { displays, condition: None }
            },
            ServerMessage::ClientDisconnected { client_id } => {
                match self.names.remove(client_id) {
                    Some(username) => {
                        displays.push(DisplayEvent::Left { username });
                        proof {
                            assert(views_of_displays(displays@)
                                =~= seq![
                                    (DisplayEventView::Left {
                                        username: map_of(old(self)@.users)[client_id],
                                    }),
                                ]);
                        }
                        ApplyResult { displays, condition: None }
                    },
                    None => ApplyResult {
                        displays,
                        condition: Some(Condition::UnknownDisconnect),
                    },
                }
            },
            ServerMessage::ChatMessage { client_id, message: text } => {
                match self.names.get(client_id) {
                    Some(username) => {
                        if client_id != self.self_id {
                            let shown = username.clone();
                            displays.push(DisplayEvent::Chat { username: shown, message: text });
                            proof {
                                assert(views_of_displays(displays@)
                                    =~= seq![
                                        (DisplayEventView::Chat {
                                            username: map_of(old(self)@.users)[client_id],
                                            message: mv->ChatMessage_message,
                                        }),
                                    ]);
                            }
                            ApplyResult { displays, condition: None }
                        } else {
                            ApplyResult { displays, condition: None }
                        }
                    },
                    None => ApplyResult { displays, condition: Some(Condition::UnknownSender) },
                }
            },
        }
    }
}

/// What one line typed at the terminal means: `quit` asks for a disconnect,
/// anything else is sent as chat.
#[derive(Debug)]
pub enum LocalInput {
    Quit,
    Chat { message: String },
}

/// Interpret one line of terminal input.
pub fn interpret_line(line: String) -> (r: LocalInput)
    ensures
        if line@ == "quit"@ {
            r is Quit
        } else {
            r matches LocalInput::Chat { message } && message@ == line@
        },
{
    let quit = String::from_str("quit");
    if line.eq(&quit) {
        LocalInput::Quit
    } else {
        LocalInput::Chat { message: line }
    }
}

} // verus!
