//! The channel catalog: the logical channels both ends declare and the
//! delivery policy of each. Client and server must hold the same catalog.

use vstd::prelude::*;

verus! {

/// Most bytes a channel may hold unacknowledged: 10 MiB.
pub const CHANNEL_MEMORY_BYTES: usize = 10 * 1024 * 1024;

/// Time before an unacknowledged reliable message is sent again.
pub const RESEND_TIME_MS: u64 = 200;

/// Most bytes a connection sends per tick: 1 MiB.
pub const BYTES_PER_TICK: u64 = 1024 * 1024;

/// Channels on which clients send.
pub enum ClientChannel {
    ClientMessage,
}

/// Channels on which the server sends.
pub enum ServerChannel {
    ServerMessage,
}

impl From<ClientChannel> for u8 {
    fn from(channel: ClientChannel) -> (r: u8) {
        match channel {
            ClientChannel::ClientMessage => 0,
        }
    }
}

impl vstd::std_specs::convert::FromSpecImpl<ClientChannel> for u8 {
    open spec fn obeys_from_spec() -> bool {
        true
    }

    open spec fn from_spec(channel: ClientChannel) -> u8 {
        match channel {
            ClientChannel::ClientMessage => 0,
        }
    }
}

impl From<ServerChannel> for u8 {
    fn from(channel: ServerChannel) -> (r: u8) {
        match channel {
            ServerChannel::ServerMessage => 0,
        }
    }
}

impl vstd::std_specs::convert::FromSpecImpl<ServerChannel> for u8 {
    open spec fn obeys_from_spec() -> bool {
        true
    }

    open spec fn from_spec(channel: ServerChannel) -> u8 {
        match channel {
            ServerChannel::ServerMessage => 0,
        }
    }
}

/// How a channel delivers.
#[derive(Clone, Copy, Debug, PartialEq, Eq, Structural)]
pub enum SendType {
    /// No resend, no order.
    Unreliable,
    /// Resent until acknowledged; any order.
    ReliableUnordered { resend_time_ms: u64 },
    /// Resent until acknowledged; delivered in sending order.
    ReliableOrdered { resend_time_ms: u64 },
}

/// One channel of the catalog.
#[derive(Clone, Copy, Debug, PartialEq, Eq, Structural)]
pub struct ChannelConfig {
    pub channel_id: u8,
    pub max_memory_usage_bytes: usize,
    pub send_type: SendType,
}

/// The whole catalog, for both directions.
pub struct ConnectionConfig {
    pub available_bytes_per_tick: u64,
    pub client_channels_config: Vec<ChannelConfig>,
    pub server_channels_config: Vec<ChannelConfig>,
}

/// The reliable-ordered channel with identifier `id` that the catalog
/// declares in each direction.
pub open spec fn ordered_channel(id: u8) -> ChannelConfig {
    ChannelConfig {
        channel_id: id,
        max_memory_usage_bytes: CHANNEL_MEMORY_BYTES,
        send_type: SendType::ReliableOrdered { resend_time_ms: RESEND_TIME_MS },
    }
}

impl ClientChannel {
    /// The client-to-server channels.
    pub fn channels_config() -> (r: Vec<ChannelConfig>)
        ensures
            r@ == seq![ordered_channel(0)],
    {
        let mut r: Vec<ChannelConfig> = Vec::new();
        r.push(ChannelConfig {
            channel_id: u8::from(ClientChannel::ClientMessage),
            max_memory_usage_bytes: CHANNEL_MEMORY_BYTES,
            send_type: SendType::ReliableOrdered { resend_time_ms: RESEND_TIME_MS },
        });
        r
    }
}

impl ServerChannel {
    /// The server-to-client channels.
    pub fn channels_config() -> (r: Vec<ChannelConfig>)
        ensures
            r@ == seq![ordered_channel(0)],
    {
        let mut r: Vec<ChannelConfig> = Vec::new();
        r.push(ChannelConfig {
            channel_id: u8::from(ServerChannel::ServerMessage),
            max_memory_usage_bytes: CHANNEL_MEMORY_BYTES,
            send_type: SendType::ReliableOrdered { resend_time_ms: RESEND_TIME_MS },
        });
        r
    }
}

/// The catalog both ends use.
pub fn connection_config() -> (r: ConnectionConfig)
    ensures
        r.available_bytes_per_tick == BYTES_PER_TICK,
        r.client_channels_config@ == seq![ordered_channel(0)],
        r.server_channels_config@ == seq![ordered_channel(0)],
{
    ConnectionConfig {
        available_bytes_per_tick: BYTES_PER_TICK,
        client_channels_config: ClientChannel::channels_config(),
        server_channels_config: ServerChannel::channels_config(),
    }
}

fn same_channels(a: &Vec<ChannelConfig>, b: &Vec<ChannelConfig>) -> (r: bool)
    ensures
        r == (a@ == b@),
{
    if a.len() != b.len() {
        return false;
    }
    let n = a.len();
    for i in 0..n
        invariant
            n == a.len(),
            n == b.len(),
            forall|j: int| 0 <= j < i ==> a@[j] == b@[j],
    {
        if a[i] != b[i] {
            return false;
        }
    }
    assert(a@ =~= b@);
    true
}

impl ConnectionConfig {
    /// Whether two ends declare the same catalog. A peer whose catalog
    /// differs speaks another protocol version and cannot be served.
    pub fn agrees_with(&self, other: &ConnectionConfig) -> (r: bool)
        ensures
            r == (self.available_bytes_per_tick == other.available_bytes_per_tick
                && self.client_channels_config@ == other.client_channels_config@
                && self.server_channels_config@ == other.server_channels_config@),
    {
        self.available_bytes_per_tick == other.available_bytes_per_tick
            && same_channels(&self.client_channels_config, &other.client_channels_config)
            && same_channels(&self.server_channels_config, &other.server_channels_config)
    }
}

} // verus!
