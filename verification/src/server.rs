//! The server dispatcher: consumes one inbound client message at a time,
//! mutates the roster, and says exactly which messages must now be sent to
//! which connections, on which channel. Actually transmitting them — and
//! closing connections — is the transport's job; a send that fails must be
//! abandoned for that one recipient without aborting the rest.

use vstd::prelude::*;
use crate::protocol::Channel;
use crate::protocol::ClientMessage;
use crate::protocol::ClientMessageView;
use crate::protocol::ServerMessage;
use crate::protocol::ServerMessageView;
use crate::protocol::clone_server_message;
use crate::roster::Roster;
use crate::roster::UserView;
use crate::roster::ids_of;
use crate::roster::map_of;
use crate::roster::roster_wf;

verus! {

/// One outbound transmission: the connection it goes to, the channel class
/// it requires, and the message itself.
#[derive(Debug)]
pub struct Outbound {
    pub to: u64,
    pub channel: Channel,
    pub message: ServerMessage,
}

/// Mathematical shape of an `Outbound`.
pub struct OutboundView {
    pub to: u64,
    pub channel: Channel,
    pub message: ServerMessageView,
}

impl View for Outbound {
    type V = OutboundView;

    open spec fn view(&self) -> OutboundView {
        OutboundView { to: self.to, channel: self.channel, message: self.message@ }
    }
}

/// The views of a queue of outbound transmissions.
pub open spec fn views_of_sends(s: Seq<Outbound>) -> Seq<OutboundView> {
    s.map_values(|o: Outbound| o@)
}

/// Non-fatal protocol-misuse conditions. They are signalled (logged) and
/// processing continues; none of them changes any state.
#[derive(Clone, Copy, PartialEq, Eq, Structural, Debug)]
pub enum Condition {
    DuplicateJoin,
    UnknownSender,
    UnknownDisconnect,
}

/// Everything one dispatch step asks of the transport: the messages to send
/// in order, a connection to close (for an explicit disconnect), and a
/// condition to signal.
#[derive(Debug)]
pub struct DispatchResult {
    pub sends: Vec<Outbound>,
    pub close: Option<u64>,
    pub condition: Option<Condition>,
}

/// The same message to every one of `targets`, in their order, on `channel`.
pub open spec fn broadcast_to(targets: Seq<u64>, channel: Channel, message: ServerMessageView)
    -> Seq<OutboundView> {
    targets.map_values(|t: u64| OutboundView { to: t, channel: channel, message: message })
}

/// What a `Join{name}` from `from` does to roster `r0`: nothing if `from` is
/// already present (duplicate join); otherwise the entry is appended, the new
/// client alone is sent `InitClient` with the snapshot taken strictly after
/// the insertion, and then every roster member — the new one included — is
/// sent `ClientConnected`, all ordered-reliable.
pub open spec fn join_post(
    r0: Seq<UserView>,
    from: u64,
    name: Seq<char>,
    r1: Seq<UserView>,
    out: Seq<OutboundView>,
) -> bool {
    if map_of(r0).contains_key(from) {
        r1 == r0 && out == Seq::<OutboundView>::empty()
    } else {
        r1 == r0.push((UserView { id: from, name: name }))
        && out == seq![
            (OutboundView {
                to: from,
                channel: Channel::OrderedReliable,
                message: ServerMessageView::InitClient { client_id: from, usernames: r1 },
            }),
        ] + broadcast_to(
            ids_of(r1),
            Channel::OrderedReliable,
            ServerMessageView::ClientConnected { client_id: from, username: name },
        )
    }
}

/// What a `ChatMessage{text}` from `from` does: nothing to the roster; if
/// `from` is a member, the chat is broadcast unordered-reliable to every
/// member (the sender included — clients filter their own echo); if not, it
/// is dropped, since it cannot be attributed to a sender.
pub open spec fn chat_post(
    r0: Seq<UserView>,
    from: u64,
    text: Seq<char>,
    out: Seq<OutboundView>,
) -> bool {
    if map_of(r0).contains_key(from) {
        out == broadcast_to(
            ids_of(r0),
            Channel::UnorderedReliable,
            ServerMessageView::ChatMessage { client_id: from, message: text },
        )
    } else {
        out == Seq::<OutboundView>::empty()
    }
}

/// What removing `id` does: if present, exactly that entry is deleted and
/// `ClientDisconnected` is broadcast ordered-reliable to the remaining
/// members (the removed connection is gone and excluded); if absent, nothing
/// changes and nothing is sent, which makes removal idempotent.
pub open spec fn remove_post(
    r0: Seq<UserView>,
    id: u64,
    r1: Seq<UserView>,
    out: Seq<OutboundView>,
) -> bool {
    if map_of(r0).contains_key(id) {
        roster_wf(r1)
        && map_of(r1) == map_of(r0).remove(id)
        && out == broadcast_to(
            ids_of(r1),
            Channel::OrderedReliable,
            ServerMessageView::ClientDisconnected { client_id: id },
        )
    } else {
        r1 == r0 && out == Seq::<OutboundView>::empty()
    }
}

/// Push one copy of `message` per target onto `sends`, in target order.
fn push_broadcast(sends: &mut Vec<Outbound>, targets: &Vec<u64>, channel: Channel, message: &ServerMessage)
    ensures
        views_of_sends(final(sends)@)
            == views_of_sends(old(sends)@) + broadcast_to(targets@, channel, message@),
{
    let mut i: usize = 0;
    proof {
        assert(views_of_sends(sends@)
            =~= views_of_sends(sends@) + broadcast_to(targets@.subrange(0, 0), channel, message@));
    }
    while i < targets.len()
        invariant
            i <= targets@.len(),
            views_of_sends(sends@)
                == views_of_sends(old(sends)@)
                    + broadcast_to(targets@.subrange(0, i as int), channel, message@),
        decreases targets@.len() - i,
    {
        let m = clone_server_message(message);
        let o = Outbound { to: targets[i], channel, message: m };
        let ghost ov = o@;
        let ghost prev = sends@;
        sends.push(o);
        proof {
            assert(views_of_sends(sends@) =~= views_of_sends(prev).push(ov));
            assert(targets@.subrange(0, i as int + 1)
                =~= targets@.subrange(0, i as int).push(targets@[i as int]));
            assert(broadcast_to(targets@.subrange(0, i as int + 1), channel, message@)
                =~= broadcast_to(targets@.subrange(0, i as int), channel, message@).push(ov));
            assert(views_of_sends(sends@)
                =~= views_of_sends(old(sends)@)
                    + broadcast_to(targets@.subrange(0, i as int + 1), channel, message@));
        }
        i += 1;
    }
    proof {
        assert(targets@.subrange(0, targets@.len() as int) =~= targets@);
    }
}

/// The shared removal procedure, used both for an explicit `Disconnect`
/// message and for a transport-level connection-loss notification — the two
/// may race, and the second invocation finds nothing to do.
pub fn remove(roster: &mut Roster, id: u64) -> (r: DispatchResult)
    requires
        old(roster).wf(),
    ensures
        final(roster).wf(),
        remove_post(old(roster)@, id, final(roster)@, views_of_sends(r.sends@)),
        r.close is None,
        r.condition == (if map_of(old(roster)@).contains_key(id) {
            None::<Condition>
        } else {
            Some(Condition::UnknownDisconnect)
        }),
{
    match roster.remove(id) {
        Some(_name) => {
            let targets = roster.ids();
            let mut sends: Vec<Outbound> = Vec::new();
            proof {
                assert(views_of_sends(sends@) =~= Seq::<OutboundView>::empty());
            }
            push_broadcast(
                &mut sends,
                &targets,
                Channel::OrderedReliable,
                &ServerMessage::ClientDisconnected { client_id: id },
            );
            proof {
                assert(views_of_sends(sends@)
                    =~= broadcast_to(
                        ids_of(roster@),
                        Channel::OrderedReliable,
                        ServerMessageView::ClientDisconnected { client_id: id },
                    ));
            }
            DispatchResult { sends, close: None, condition: None }
        },
        None => {
            proof {
                assert(views_of_sends(Seq::<Outbound>::empty()) =~= Seq::<OutboundView>::empty());
            }
            DispatchResult {
                sends: Vec::new(),
                close: None,
                condition: Some(Condition::UnknownDisconnect),
            }
        },
    }
}

/// The dispatcher: what one inbound `message` from connection `from` does to
/// the roster, and everything that must be sent, closed or signalled as a
/// consequence. Mutation and the computation of the resulting sends form one
/// step, so every broadcast is computed from the just-updated roster.
pub fn handle(roster: &mut Roster, from: u64, message: ClientMessage) -> (r: DispatchResult)
    requires
        old(roster).wf(),
    ensures
        final(roster).wf(),
        (match message@ {
            ClientMessageView::Join { name } => {
                join_post(old(roster)@, from, name, final(roster)@, views_of_sends(r.sends@))
                && r.close is None
                && r.condition == (if map_of(old(roster)@).contains_key(from) {
                    Some(Condition::DuplicateJoin)
                } else {
                    None::<Condition>
                })
            },
            ClientMessageView::Disconnect {} => {
                remove_post(old(roster)@, from, final(roster)@, views_of_sends(r.sends@))
                && r.close == Some(from)
                && r.condition == (if map_of(old(roster)@).contains_key(from) {
                    None::<Condition>
                } else {
                    Some(Condition::UnknownDisconnect)
                })
            },
            ClientMessageView::ChatMessage { message: text } => {
                final(roster)@ == old(roster)@
                && chat_post(old(roster)@, from, text, views_of_sends(r.sends@))
                && r.close is None
                && r.condition == (if map_of(old(roster)@).contains_key(from) {
                    None::<Condition>
                } else {
                    Some(Condition::UnknownSender)
                })
            },
        }),
{
    match message {
        ClientMessage::Join { name } => {
            if roster.contains(from) {
                proof {
                    assert(views_of_sends(Seq::<Outbound>::empty())
                        =~= Seq::<OutboundView>::empty());
                }
                DispatchResult {
                    sends: Vec::new(),
                    close: None,
                    condition: Some(Condition::DuplicateJoin),
                }
            } else {
                roster.insert(from, name.clone());
                let snapshot = roster.snapshot();
                let targets = roster.ids();
                let mut sends: Vec<Outbound> = Vec::new();
                let init = Outbound {
                    to: from,
                    channel: Channel::OrderedReliable,
                    message: ServerMessage::InitClient { client_id: from, usernames: snapshot },
                };
                let ghost initv = init@;
                sends.push(init);
                proof {
                    assert(views_of_sends(sends@) =~= seq![initv]);
                }
                push_broadcast(
                    &mut sends,
                    &targets,
                    Channel::OrderedReliable,
                    &ServerMessage::ClientConnected { client_id: from, username: name },
                );
                DispatchResult { sends, close: None, condition: None }
            }
        },
        ClientMessage::Disconnect {} => {
            let r = remove(roster, from);
            DispatchResult { sends: r.sends, close: Some(from), condition: r.condition }
        },
        ClientMessage::ChatMessage { message: text } => {
            if roster.contains(from) {
                let targets = roster.ids();
                let mut sends: Vec<Outbound> = Vec::new();
                proof {
                    assert(views_of_sends(sends@) =~= Seq::<OutboundView>::empty());
                }
                push_broadcast(
                    &mut sends,
                    &targets,
                    Channel::UnorderedReliable,
                    &ServerMessage::ChatMessage { client_id: from, message: text },
                );
                DispatchResult { sends, close: None, condition: None }
            } else {
                proof {
                    assert(views_of_sends(Seq::<Outbound>::empty())
                        =~= Seq::<OutboundView>::empty());
                }
                DispatchResult {
                    sends: Vec::new(),
                    close: None,
                    condition: Some(Condition::UnknownSender),
                }
            }
        },
    }
}

} // verus!
