use medieval_call_of_duty::{
    handle_server_messages, DisconnectCause, MirrorChange, Position, ReplicationMirror,
    ServerMessage, ShadowEntity,
};

fn here() -> Position {
    Position { x_bits: 0f32.to_bits(), y_bits: 1f32.to_bits(), z_bits: 0f32.to_bits() }
}

#[test]
fn duplicate_creation_leaves_one_shadow() {
    let mut mirror = ReplicationMirror::new();
    let msg = ServerMessage::SpawnPlayer { server_entity: 5, position: here() };
    let first = mirror.apply(msg);
    let second = mirror.apply(msg);
    let shadow = ShadowEntity { entity_id: 5, position: here(), locally_controlled: false };
    assert_eq!(first, Some(MirrorChange::Created { shadow }));
    assert_eq!(second, None);
    assert_eq!(mirror.shadows(), vec![shadow]);
}

#[test]
fn own_character_is_locally_controlled() {
    let mut mirror = ReplicationMirror::new();
    mirror.apply(ServerMessage::SpawnHim { server_entity: 1, position: here() });
    mirror.apply(ServerMessage::SpawnPlayer { server_entity: 2, position: here() });
    assert_eq!(mirror.shadow(1).map(|s| s.locally_controlled), Some(true));
    assert_eq!(mirror.shadow(2).map(|s| s.locally_controlled), Some(false));
}

#[test]
fn removal_of_unknown_entity_is_ignored() {
    let mut mirror = ReplicationMirror::new();
    assert_eq!(mirror.apply(ServerMessage::EntityRemoved { server_entity: 9 }), None);
    assert!(mirror.shadows().is_empty());
}

#[test]
fn peer_notices_only_track_membership() {
    let mut mirror = ReplicationMirror::new();
    assert_eq!(mirror.apply(ServerMessage::PlayerConnected { id: 4 }), Some(MirrorChange::PeerJoined { id: 4 }));
    assert_eq!(mirror.apply(ServerMessage::PlayerConnected { id: 4 }), None);
    assert!(mirror.shadows().is_empty());
    let left = mirror.apply(ServerMessage::PlayerDisconnected { id: 4, reason: DisconnectCause::Transport });
    assert_eq!(left, Some(MirrorChange::PeerLeft { id: 4 }));
    assert!(mirror.peers().is_empty());
    let again = mirror.apply(ServerMessage::PlayerDisconnected { id: 4, reason: DisconnectCause::Transport });
    assert_eq!(again, None);
}

#[test]
fn messages_apply_in_arrival_order() {
    let create = ServerMessage::SpawnPlayer { server_entity: 7, position: here() };
    let remove = ServerMessage::EntityRemoved { server_entity: 7 };
    let mut forward = ReplicationMirror::new();
    let changes = handle_server_messages(&mut forward, &vec![create, remove]);
    assert_eq!(changes.len(), 2);
    assert!(forward.shadow(7).is_none());
    let mut backward = ReplicationMirror::new();
    let changes = handle_server_messages(&mut backward, &vec![remove, create]);
    assert_eq!(changes.len(), 1);
    assert!(backward.shadow(7).is_some());
}

#[test]
fn peer_sees_removal_after_owner_leaves() {
    let mut mirror = ReplicationMirror::new();
    let msgs = vec![
        ServerMessage::PlayerConnected { id: 1 },
        ServerMessage::PlayerConnected { id: 2 },
        ServerMessage::SpawnPlayer { server_entity: 1, position: here() },
        ServerMessage::PlayerDisconnected { id: 1, reason: DisconnectCause::Transport },
        ServerMessage::EntityRemoved { server_entity: 1 },
    ];
    let changes = handle_server_messages(&mut mirror, &msgs);
    assert_eq!(changes.last(), Some(&MirrorChange::Removed { entity_id: 1 }));
    assert!(mirror.shadow(1).is_none());
    assert_eq!(mirror.peers(), vec![2]);
}

#[test]
fn shadows_come_only_from_creation_messages() {
    let mut mirror = ReplicationMirror::new();
    let msgs = vec![
        ServerMessage::PlayerConnected { id: 3 },
        ServerMessage::EntityRemoved { server_entity: 2 },
        ServerMessage::PlayerDisconnected { id: 3, reason: DisconnectCause::ChannelError },
        ServerMessage::SpawnHim { server_entity: 4, position: here() },
    ];
    handle_server_messages(&mut mirror, &msgs);
    assert_eq!(
        mirror.shadows(),
        vec![ShadowEntity { entity_id: 4, position: here(), locally_controlled: true }]
    );
}
