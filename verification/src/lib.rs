//! Core of a minimal real-time text chat: the wire protocol shared by server
//! and client, the server's authoritative roster of joined connections, the
//! server dispatcher that turns inbound client messages into roster updates
//! and outbound broadcasts, and the client session state that mirrors the
//! roster from the server's notifications.
//!
//! Transport, scheduling and terminal input are left to the surrounding
//! application; everything here is plain logic over plain values, verified.

pub mod laws;
pub mod protocol;
pub mod roster;
pub mod server;
pub mod session;
