use chat_core::protocol::Channel;
use chat_core::protocol::ClientMessage;
use chat_core::protocol::ServerMessage;
use chat_core::roster::Roster;
use chat_core::server::handle;
use chat_core::server::remove;
use chat_core::server::Condition;
use chat_core::server::DispatchResult;
use chat_core::session::interpret_line;
use chat_core::session::DisplayEvent;
use chat_core::session::LocalInput;
use chat_core::session::Session;

fn join(roster: &mut Roster, id: u64, name: &str) -> DispatchResult {
    handle(roster, id, ClientMessage::Join { name: name.to_string() })
}

#[test]
fn join_inserts_and_notifies() {
    let mut roster = Roster::new();
    let r = join(&mut roster, 1, "alice");
    assert!(r.condition.is_none());
    assert!(r.close.is_none());
    assert_eq!(roster.len(), 1);
    assert_eq!(roster.get(1), Some(&"alice".to_string()));
    // InitClient to the joiner first, then ClientConnected to every member
    // (here: the joiner alone), all ordered-reliable.
    assert_eq!(r.sends.len(), 2);
    assert_eq!(r.sends[0].to, 1);
    assert_eq!(r.sends[0].channel, Channel::OrderedReliable);
    match &r.sends[0].message {
        ServerMessage::InitClient { client_id, usernames } => {
            assert_eq!(*client_id, 1);
            assert_eq!(usernames.len(), 1);
            assert_eq!(usernames.get(1), Some(&"alice".to_string()));
        }
        _ => panic!("first message to the joiner must be InitClient"),
    }
    assert_eq!(r.sends[1].to, 1);
    assert_eq!(r.sends[1].channel, Channel::OrderedReliable);
    match &r.sends[1].message {
        ServerMessage::ClientConnected { client_id, username } => {
            assert_eq!(*client_id, 1);
            assert_eq!(username, "alice");
        }
        _ => panic!("the joiner also gets its own ClientConnected"),
    }
}

#[test]
fn duplicate_join_changes_nothing() {
    let mut roster = Roster::new();
    let _ = join(&mut roster, 1, "alice");
    let r = join(&mut roster, 1, "impostor");
    assert_eq!(r.condition, Some(Condition::DuplicateJoin));
    assert!(r.sends.is_empty());
    assert!(r.close.is_none());
    assert_eq!(roster.len(), 1);
    assert_eq!(roster.get(1), Some(&"alice".to_string()));
}

#[test]
fn chat_broadcasts_unordered_to_all_members() {
    let mut roster = Roster::new();
    let _ = join(&mut roster, 1, "alice");
    let _ = join(&mut roster, 2, "bob");
    let r = handle(&mut roster, 1, ClientMessage::ChatMessage { message: "hi".to_string() });
    assert!(r.condition.is_none());
    assert_eq!(r.sends.len(), 2);
    let mut tos: Vec<u64> = r.sends.iter().map(|o| o.to).collect();
    tos.sort();
    assert_eq!(tos, vec![1, 2]);
    for o in &r.sends {
        assert_eq!(o.channel, Channel::UnorderedReliable);
        match &o.message {
            ServerMessage::ChatMessage { client_id, message } => {
                assert_eq!(*client_id, 1);
                assert_eq!(message, "hi");
            }
            _ => panic!("chat broadcast carries ChatMessage"),
        }
    }
}

#[test]
fn chat_from_unknown_sender_is_dropped() {
    let mut roster = Roster::new();
    let _ = join(&mut roster, 1, "alice");
    let r = handle(&mut roster, 9, ClientMessage::ChatMessage { message: "hi".to_string() });
    assert_eq!(r.condition, Some(Condition::UnknownSender));
    assert!(r.sends.is_empty());
    assert_eq!(roster.len(), 1);
}

#[test]
fn disconnect_closes_removes_and_notifies_remaining() {
    let mut roster = Roster::new();
    let _ = join(&mut roster, 1, "alice");
    let _ = join(&mut roster, 2, "bob");
    let r = handle(&mut roster, 1, ClientMessage::Disconnect {});
    assert_eq!(r.close, Some(1));
    assert!(r.condition.is_none());
    assert_eq!(roster.len(), 1);
    assert!(roster.get(1).is_none());
    // only the remaining member is notified; the removed one is gone
    assert_eq!(r.sends.len(), 1);
    assert_eq!(r.sends[0].to, 2);
    assert_eq!(r.sends[0].channel, Channel::OrderedReliable);
    match &r.sends[0].message {
        ServerMessage::ClientDisconnected { client_id } => assert_eq!(*client_id, 1),
        _ => panic!("removal broadcasts ClientDisconnected"),
    }
}

#[test]
fn remove_is_idempotent() {
    // an explicit Disconnect and a connection-loss notification may race:
    // the second invocation finds nothing to do
    let mut roster = Roster::new();
    let _ = join(&mut roster, 1, "alice");
    let _ = join(&mut roster, 2, "bob");
    let first = remove(&mut roster, 1);
    assert!(first.condition.is_none());
    assert_eq!(first.sends.len(), 1);
    assert_eq!(roster.len(), 1);
    let second = remove(&mut roster, 1);
    assert_eq!(second.condition, Some(Condition::UnknownDisconnect));
    assert!(second.sends.is_empty());
    assert_eq!(roster.len(), 1);
}

#[test]
fn roster_tracks_joins_and_removals() {
    let mut roster = Roster::new();
    let _ = join(&mut roster, 1, "a");
    let _ = join(&mut roster, 2, "b");
    let _ = join(&mut roster, 3, "c");
    let _ = remove(&mut roster, 2);
    let _ = join(&mut roster, 2, "b2");
    let _ = remove(&mut roster, 1);
    assert!(!roster.contains(1));
    assert!(roster.contains(2));
    assert!(roster.contains(3));
    assert_eq!(roster.len(), 2);
    assert_eq!(roster.get(2), Some(&"b2".to_string()));
}

fn apply(session: &mut Session, message: ServerMessage) -> Vec<DisplayEvent> {
    let r = session.apply(message);
    assert!(r.condition.is_none());
    r.displays
}

#[test]
fn mirror_follows_init_connect_disconnect() {
    let mut snapshot = Roster::new();
    let _ = join(&mut snapshot, 1, "a");
    let _ = join(&mut snapshot, 2, "b");
    let mut session = Session::new();
    let d = apply(
        &mut session,
        ServerMessage::InitClient { client_id: 2, usernames: snapshot },
    );
    assert!(d.is_empty());
    assert_eq!(session.self_id(), 2);
    let d = apply(
        &mut session,
        ServerMessage::ClientConnected { client_id: 3, username: "c".to_string() },
    );
    assert_eq!(d.len(), 1);
    match &d[0] {
        DisplayEvent::Joined { username } => assert_eq!(username, "c"),
        _ => panic!("a ClientConnected displays a join notice"),
    }
    let d = apply(&mut session, ServerMessage::ClientDisconnected { client_id: 1 });
    assert_eq!(d.len(), 1);
    match &d[0] {
        DisplayEvent::Left { username } => assert_eq!(username, "a"),
        _ => panic!("a ClientDisconnected displays a leave notice"),
    }
    // the mirror is now exactly {2: "b", 3: "c"}
    let mirror = session.mirror();
    assert_eq!(mirror.len(), 2);
    assert!(mirror.get(1).is_none());
    assert_eq!(mirror.get(2), Some(&"b".to_string()));
    assert_eq!(mirror.get(3), Some(&"c".to_string()));
}

#[test]
fn own_chat_echo_is_suppressed() {
    let mut snapshot = Roster::new();
    let _ = join(&mut snapshot, 1, "alice");
    let mut session = Session::new();
    let _ = apply(&mut session, ServerMessage::InitClient { client_id: 1, usernames: snapshot });
    let d = apply(
        &mut session,
        ServerMessage::ChatMessage { client_id: 1, message: "hi".to_string() },
    );
    assert!(d.is_empty());
}

#[test]
fn unknown_disconnect_only_signals() {
    let mut session = Session::new();
    let r = session.apply(ServerMessage::ClientDisconnected { client_id: 9 });
    assert_eq!(r.condition, Some(Condition::UnknownDisconnect));
    assert!(r.displays.is_empty());
}

#[test]
fn chat_from_unknown_sender_is_not_displayed() {
    let mut session = Session::new();
    let r = session.apply(ServerMessage::ChatMessage {
        client_id: 9,
        message: "hi".to_string(),
    });
    assert_eq!(r.condition, Some(Condition::UnknownSender));
    assert!(r.displays.is_empty());
}

#[test]
fn two_clients_join_and_chat() {
    // A joins as "alice", B joins as "bob"; A's chat reaches both
    // dispatcher-level, but only B displays it.
    let mut roster = Roster::new();
    let ra = join(&mut roster, 1, "alice");
    let mut session_a = Session::new();
    let mut session_b = Session::new();
    // A receives InitClient{self=A, {A: alice}} ...
    assert_eq!(ra.sends[0].to, 1);
    let mut a_inbox: Vec<ServerMessage> = ra.sends.into_iter().filter(|o| o.to == 1).map(|o| o.message).collect();
    let rb = join(&mut roster, 2, "bob");
    for o in rb.sends.into_iter() {
        if o.to == 1 {
            a_inbox.push(o.message);
        } else {
            // B receives InitClient{self=B, {A: alice, B: bob}}
            match &o.message {
                ServerMessage::InitClient { client_id, usernames } => {
                    assert_eq!(*client_id, 2);
                    assert_eq!(usernames.len(), 2);
                }
                ServerMessage::ClientConnected { client_id, username } => {
                    assert_eq!(*client_id, 2);
                    assert_eq!(username, "bob");
                }
                _ => panic!("B can only receive InitClient and ClientConnected here"),
            }
            let _ = session_b.apply(o.message);
        }
    }
    // ... then ClientConnected{B, bob}
    let mut a_displays: Vec<DisplayEvent> = Vec::new();
    for m in a_inbox.into_iter() {
        a_displays.extend(apply(&mut session_a, m));
    }
    assert_eq!(session_a.self_id(), 1);
    assert_eq!(session_b.self_id(), 2);
    assert_eq!(session_a.mirror().len(), 2);
    assert_eq!(session_b.mirror().len(), 2);
    // A sends "hi"
    let rc = handle(&mut roster, 1, ClientMessage::ChatMessage { message: "hi".to_string() });
    let mut a_got_chat = false;
    let mut b_shown: Vec<DisplayEvent> = Vec::new();
    for o in rc.sends.into_iter() {
        match o.to {
            1 => {
                a_got_chat = true;
                let shown = apply(&mut session_a, o.message);
                assert!(shown.is_empty(), "A never displays its own chat");
            }
            2 => b_shown.extend(apply(&mut session_b, o.message)),
            _ => panic!("no such member"),
        }
    }
    assert!(a_got_chat, "the dispatcher-level broadcast includes the sender");
    assert_eq!(b_shown.len(), 1);
    match &b_shown[0] {
        DisplayEvent::Chat { username, message } => {
            assert_eq!(username, "alice");
            assert_eq!(message, "hi");
        }
        _ => panic!("B displays alice's chat"),
    }
}

#[test]
fn disconnect_then_chat_from_gone_sender() {
    // A disconnects; B is told and forgets A; a later chat claiming to be
    // from A is dropped by the server as unknown sender.
    let mut roster = Roster::new();
    let _ = join(&mut roster, 1, "alice");
    let rb = join(&mut roster, 2, "bob");
    let mut session_b = Session::new();
    for o in rb.sends.into_iter() {
        if o.to == 2 {
            let _ = apply(&mut session_b, o.message);
        }
    }
    assert_eq!(session_b.mirror().len(), 2);
    let rd = handle(&mut roster, 1, ClientMessage::Disconnect {});
    assert_eq!(rd.close, Some(1));
    assert_eq!(rd.sends.len(), 1);
    assert_eq!(rd.sends[0].to, 2);
    for o in rd.sends.into_iter() {
        let shown = apply(&mut session_b, o.message);
        assert_eq!(shown.len(), 1);
        match &shown[0] {
            DisplayEvent::Left { username } => assert_eq!(username, "alice"),
            _ => panic!("B displays that alice left"),
        }
    }
    assert_eq!(session_b.mirror().len(), 1);
    assert!(session_b.mirror().get(1).is_none());
    let rc = handle(&mut roster, 1, ClientMessage::ChatMessage { message: "hello".to_string() });
    assert_eq!(rc.condition, Some(Condition::UnknownSender));
    assert!(rc.sends.is_empty());
}

#[test]
fn quit_line_disconnects_other_lines_chat() {
    match interpret_line("quit".to_string()) {
        LocalInput::Quit => {}
        _ => panic!("the quit line must disconnect"),
    }
    match interpret_line("hello there".to_string()) {
        LocalInput::Chat { message } => assert_eq!(message, "hello there"),
        _ => panic!("any other line is sent as chat"),
    }
}
