//! Authoritative session registry and entity replication for a small
//! multiplayer shooter: the server decides who is present and which
//! characters exist, and each client mirrors what the server announced.
//!
//! The crate holds no transport: it takes connection events and decoded
//! messages as plain values and hands back what must be sent.

pub mod channels;
pub mod mirror;
pub mod protocol;
pub mod registry;
pub mod violations;

pub use channels::{
    connection_config, ChannelConfig, ClientChannel, ConnectionConfig, SendType, ServerChannel,
};
pub use mirror::{handle_server_messages, MirrorChange, ReplicationMirror, ShadowEntity};
pub use protocol::{
    ClientMessage, DisconnectCause, EntityType, Position, ServerMessage, PROTOCOL_ID,
};
pub use registry::{
    handle_client_messages, handle_server_events, CharacterRecord, Outgoing, ServerEvent,
    ServerLobby,
};
pub use violations::{ViolationLedger, MAX_PROTOCOL_VIOLATIONS};
