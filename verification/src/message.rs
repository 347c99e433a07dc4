//! The messages exchanged between client and server.
//!
//! Byte encoding is an outside collaborator's job: the library speaks in
//! these values, and whatever encodes them must decode them back
//! unchanged.  Control messages run only during login; gameplay messages
//! ride the reliable stream (respawn) or the unreliable channel
//! (movement, snapshots).

use vstd::prelude::*;
use crate::game_state::{GameStateUpdate, Position, UserId};

verus! {

/// Control message a client opens its reliable connection with.
#[derive(Clone, Copy, PartialEq, Eq, Structural, Debug)]
pub enum ClientConnectionMessage {
    /// Ask the server to allocate a fresh identity.
    ConnectNew,
    /// Ask to reconnect under a previously held identity.
    ConnectWithId(UserId),
}

/// Control reply the server gives during login.
#[derive(Clone, Copy, PartialEq, Eq, Structural, Debug)]
pub enum ServerConnectionMessage {
    /// A fresh identity was allocated for the peer.
    AssignUserId(UserId),
    /// The requested identity was free and is now reserved for the peer.
    AcknowledgeId,
    /// The requested identity is held by a live session; the peer may retry.
    IdAlreadyInUse,
}

/// Gameplay message a client sends over its reliable stream.
#[derive(Clone, Copy, PartialEq, Eq, Structural, Debug)]
pub enum ClientTcpMessage {
    Respawn,
}

/// Gameplay message a client sends over the unreliable channel.
#[derive(Clone, Copy, PartialEq, Eq, Structural, Debug)]
pub enum ClientUdpMessage {
    Move { new_pos: Position },
}

/// Gameplay message the server sends over a reliable stream.
#[derive(Clone, Copy, PartialEq, Eq, Structural, Debug)]
pub enum ServerTcpMessage {
    Nothing,
}

/// Gameplay message the server sends over the unreliable channel.
#[derive(Clone, Debug)]
pub enum ServerUdpMessage {
    GameState(GameStateUpdate),
}

/// Any gameplay message from a client, tagged by transport.
#[derive(Clone, Copy, PartialEq, Eq, Structural, Debug)]
pub enum ClientMessage {
    Tcp(ClientTcpMessage),
    Udp(ClientUdpMessage),
}

/// Any gameplay message to a client, tagged by transport.
#[derive(Clone, Debug)]
pub enum ServerMessage {
    Tcp(ServerTcpMessage),
    Udp(ServerUdpMessage),
}

/// What the network layer reports upward about one client.
pub enum ClientEvent {
    Connected,
    Disconnected,
    ClientMessage(ClientMessage),
}

} // verus!
