//! The wire protocol: the message schemas exchanged between client and
//! server, and the delivery-reliability class each message kind requires.
//! Pure data; no behavior lives here.

use vstd::prelude::*;
use crate::roster::Roster;
use crate::roster::UserView;

verus! {

/// Delivery-reliability class of a logical channel. Control and roster-state
/// messages must arrive in send order; chat broadcasts tolerate reordering,
/// so they travel unordered (but still reliably).
#[derive(Clone, Copy, PartialEq, Eq, Structural, Debug)]
pub enum Channel {
    OrderedReliable,
    UnorderedReliable,
}

/// Messages a client sends to the server.
#[derive(Debug)]
pub enum ClientMessage {
    Join { name: String },
    Disconnect {},
    ChatMessage { message: String },
}

/// Mathematical shape of a `ClientMessage`: strings as character sequences.
pub enum ClientMessageView {
    Join { name: Seq<char> },
    Disconnect {},
    ChatMessage { message: Seq<char> },
}

impl View for ClientMessage {
    type V = ClientMessageView;

    open spec fn view(&self) -> ClientMessageView {
        match self {
            ClientMessage::Join { name } => ClientMessageView::Join { name: name@ },
            ClientMessage::Disconnect {} => ClientMessageView::Disconnect {},
            ClientMessage::ChatMessage { message } => ClientMessageView::ChatMessage {
                message: message@,
            },
        }
    }
}

/// Messages the server sends to clients. `InitClient` carries the full
/// roster snapshot taken strictly after the new entry was inserted, together
/// with the identifier the server assigned to the connection.
#[derive(Debug)]
pub enum ServerMessage {
    InitClient { client_id: u64, usernames: Roster },
    ClientConnected { client_id: u64, username: String },
    ClientDisconnected { client_id: u64 },
    ChatMessage { client_id: u64, message: String },
}

/// Mathematical shape of a `ServerMessage`.
pub enum ServerMessageView {
    InitClient { client_id: u64, usernames: Seq<UserView> },
    ClientConnected { client_id: u64, username: Seq<char> },
    ClientDisconnected { client_id: u64 },
    ChatMessage { client_id: u64, message: Seq<char> },
}

impl View for ServerMessage {
    type V = ServerMessageView;

    open spec fn view(&self) -> ServerMessageView {
        match self {
            ServerMessage::InitClient { client_id, usernames } => ServerMessageView::InitClient {
                client_id: *client_id,
                usernames: usernames@,
            },
            ServerMessage::ClientConnected { client_id, username } => ServerMessageView::ClientConnected {
                client_id: *client_id,
                username: username@,
            },
            ServerMessage::ClientDisconnected { client_id } => ServerMessageView::ClientDisconnected {
                client_id: *client_id,
            },
            ServerMessage::ChatMessage { client_id, message } => ServerMessageView::ChatMessage {
                client_id: *client_id,
                message: message@,
            },
        }
    }
}

/// The channel class each server message kind requires: chat broadcasts are
/// unordered, everything else is ordered.
pub open spec fn channel_for(m: ServerMessageView) -> Channel {
    match m {
        ServerMessageView::ChatMessage { .. } => Channel::UnorderedReliable,
        _ => Channel::OrderedReliable,
    }
}

/// An equal copy of a server message, for broadcasting one message to many
/// recipients.
pub fn clone_server_message(m: &ServerMessage) -> (r: ServerMessage)
    ensures
        r@ == m@,
{
    match m {
        ServerMessage::InitClient { client_id, usernames } => ServerMessage::InitClient {
            client_id: *client_id,
            usernames: usernames.snapshot(),
        },
        ServerMessage::ClientConnected { client_id, username } => ServerMessage::ClientConnected {
            client_id: *client_id,
            username: username.clone(),
        },
        ServerMessage::ClientDisconnected { client_id } => ServerMessage::ClientDisconnected {
            client_id: *client_id,
        },
        ServerMessage::ChatMessage { client_id, message } => ServerMessage::ChatMessage {
            client_id: *client_id,
            message: message.clone(),
        },
    }
}

} // verus!
