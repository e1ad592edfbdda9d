use medieval_call_of_duty::{
    connection_config, ChannelConfig, ClientChannel, SendType, ServerChannel, ViolationLedger,
    MAX_PROTOCOL_VIOLATIONS,
};

#[test]
fn channel_ids_are_zero() {
    assert_eq!(u8::from(ClientChannel::ClientMessage), 0);
    assert_eq!(u8::from(ServerChannel::ServerMessage), 0);
}

#[test]
fn both_directions_declare_one_reliable_ordered_channel() {
    let expected = ChannelConfig {
        channel_id: 0,
        max_memory_usage_bytes: 10 * 1024 * 1024,
        send_type: SendType::ReliableOrdered { resend_time_ms: 200 },
    };
    assert_eq!(ClientChannel::channels_config(), vec![expected]);
    assert_eq!(ServerChannel::channels_config(), vec![expected]);
    let config = connection_config();
    assert_eq!(config.available_bytes_per_tick, 1024 * 1024);
}

#[test]
fn catalogs_agree_only_when_identical() {
    let local = connection_config();
    assert!(local.agrees_with(&connection_config()));
    let mut other = connection_config();
    other.server_channels_config[0].send_type = SendType::ReliableOrdered { resend_time_ms: 100 };
    assert!(!local.agrees_with(&other));
    let mut smaller = connection_config();
    smaller.available_bytes_per_tick = 512;
    assert!(!local.agrees_with(&smaller));
}

#[test]
fn violations_cut_off_at_the_bound() {
    let mut ledger = ViolationLedger::new();
    assert_eq!(MAX_PROTOCOL_VIOLATIONS, 3);
    assert!(!ledger.record(8));
    assert!(!ledger.record(8));
    assert!(!ledger.record(9));
    assert!(ledger.record(8));
    assert_eq!(ledger.count(8), 3);
    assert!(ledger.record(8));
    assert_eq!(ledger.count(8), 3);
    assert_eq!(ledger.count(9), 1);
    ledger.forget(8);
    assert_eq!(ledger.count(8), 0);
}
