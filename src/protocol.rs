//! Messages exchanged between the server and its clients.

use vstd::prelude::*;

verus! {

/// Identifier that both ends present during the transport handshake; a peer
/// speaking another version of this protocol is refused there.
pub const PROTOCOL_ID: u64 = 0;

/// Bit pattern of the single-precision float `1.0`.
pub const ONE_BITS: u32 = 0x3F80_0000;

/// A point in the world. Each coordinate is the IEEE-754 single-precision
/// bit pattern of the float it stands for; the protocol carries positions
/// and never computes with them.
#[derive(Clone, Copy, Debug, PartialEq, Eq, Structural)]
pub struct Position {
    pub x_bits: u32,
    pub y_bits: u32,
    pub z_bits: u32,
}

impl Position {
    /// The fixed spawn point `(0, 1, 0)` used when no other provider is
    /// plugged in.
    pub fn default_spawn_point() -> (p: Position)
        ensures
            p == (Position { x_bits: 0, y_bits: ONE_BITS, z_bits: 0 }),
    {
        Position { x_bits: 0, y_bits: ONE_BITS, z_bits: 0 }
    }
}

/// Why a connection ended, as announced to the remaining peers.
#[derive(Clone, Copy, Debug, PartialEq, Eq, Structural)]
pub enum DisconnectCause {
    /// The transport lost the connection.
    Transport,
    /// The client closed the connection.
    DisconnectedByClient,
    /// The server closed the connection.
    DisconnectedByServer,
    /// A channel failed: a send went over its memory ceiling, or a
    /// malformed message arrived on it.
    ChannelError,
    /// The connection broke the wire protocol (bad packet or channel).
    ProtocolViolation,
}

/// What a client sends to the server.
#[derive(Clone, Copy, Debug, PartialEq, Eq, Structural)]
pub enum ClientMessage {
    /// Ask for this connection's character to be created.
    SpawnMe,
}

/// What the server sends to its clients.
#[derive(Clone, Copy, Debug, PartialEq, Eq, Structural)]
pub enum ServerMessage {
    /// Connection `id` is a member of the session.
    PlayerConnected { id: u64 },
    /// Connection `id` has left the session.
    PlayerDisconnected { id: u64, reason: DisconnectCause },
    /// A character that belongs to another connection appeared.
    SpawnPlayer { server_entity: u64, position: Position },
    /// The receiver's own character was created.
    SpawnHim { server_entity: u64, position: Position },
    /// The entity is gone from the world.
    EntityRemoved { server_entity: u64 },
}

/// Kinds of replicated entities.
#[derive(Clone, Copy, Debug, PartialEq, Eq, Structural)]
pub enum EntityType {
    Character,
}

} // verus!
