use medieval_call_of_duty::{
    handle_client_messages, handle_server_events, ClientMessage, DisconnectCause, Outgoing,
    Position, ServerEvent, ServerLobby, ServerMessage,
};

const A: u64 = 11;
const B: u64 = 22;
const C: u64 = 33;

fn spawn_point() -> Position {
    Position { x_bits: 0f32.to_bits(), y_bits: 1f32.to_bits(), z_bits: 0f32.to_bits() }
}

/// What connection `r` receives from `outs`, in order.
fn received(outs: &[Outgoing], r: u64) -> Vec<ServerMessage> {
    let mut got = Vec::new();
    for o in outs {
        match *o {
            Outgoing::Send { to, message } if to == r => got.push(message),
            Outgoing::Broadcast { message } => got.push(message),
            Outgoing::BroadcastExcept { except, message } if except != r => got.push(message),
            _ => {}
        }
    }
    got
}

#[test]
fn default_spawn_point_is_one_above_origin() {
    assert_eq!(Position::default_spawn_point(), spawn_point());
}

#[test]
fn first_connection_hears_only_itself() {
    let mut lobby = ServerLobby::new();
    let outs = lobby.on_connected(A);
    assert_eq!(outs, vec![Outgoing::Broadcast { message: ServerMessage::PlayerConnected { id: A } }]);
    assert_eq!(received(&outs, A), vec![ServerMessage::PlayerConnected { id: A }]);
    assert_eq!(lobby.players(), vec![A]);
}

#[test]
fn scenario_two_connections() {
    let mut lobby = ServerLobby::new();
    let first = lobby.on_connected(A);
    assert_eq!(received(&first, A), vec![ServerMessage::PlayerConnected { id: A }]);
    let second = lobby.on_connected(B);
    assert_eq!(received(&second, A), vec![ServerMessage::PlayerConnected { id: B }]);
    assert_eq!(
        received(&second, B),
        vec![ServerMessage::PlayerConnected { id: A }, ServerMessage::PlayerConnected { id: B }]
    );
}

#[test]
fn catch_up_lists_every_earlier_client_in_order() {
    let mut lobby = ServerLobby::new();
    for id in [5u64, 3, 9, 1] {
        lobby.on_connected(id);
    }
    let outs = lobby.on_connected(C);
    assert_eq!(
        received(&outs, C),
        vec![
            ServerMessage::PlayerConnected { id: 5 },
            ServerMessage::PlayerConnected { id: 3 },
            ServerMessage::PlayerConnected { id: 9 },
            ServerMessage::PlayerConnected { id: 1 },
            ServerMessage::PlayerConnected { id: C },
        ]
    );
    for id in [5u64, 3, 9, 1] {
        assert_eq!(received(&outs, id), vec![ServerMessage::PlayerConnected { id: C }]);
    }
    assert_eq!(lobby.players(), vec![5, 3, 9, 1, C]);
}

#[test]
fn repeated_connect_changes_nothing() {
    let mut lobby = ServerLobby::new();
    lobby.on_connected(A);
    assert!(lobby.on_connected(A).is_empty());
    assert_eq!(lobby.players(), vec![A]);
}

#[test]
fn scenario_spawn_and_resend() {
    let mut lobby = ServerLobby::new();
    lobby.on_connected(A);
    lobby.on_connected(B);
    let outs = lobby.on_spawn_request(A, spawn_point());
    let p = spawn_point();
    assert_eq!(received(&outs, B), vec![ServerMessage::SpawnPlayer { server_entity: 1, position: p }]);
    assert_eq!(received(&outs, A), vec![ServerMessage::SpawnHim { server_entity: 1, position: p }]);
    assert_eq!(lobby.character(A).map(|c| c.entity_id), Some(1));
    assert!(lobby.on_spawn_request(A, spawn_point()).is_empty());
    assert_eq!(lobby.characters().len(), 1);
}

#[test]
fn two_spawn_requests_give_one_character_and_one_appearance() {
    let mut lobby = ServerLobby::new();
    lobby.on_connected(A);
    lobby.on_connected(B);
    let mut all = lobby.on_spawn_request(A, spawn_point());
    all.extend(lobby.on_spawn_request(A, spawn_point()));
    let appeared = all
        .iter()
        .filter(|o| matches!(o, Outgoing::BroadcastExcept { message: ServerMessage::SpawnPlayer { .. }, .. }))
        .count();
    assert_eq!(appeared, 1);
    assert_eq!(lobby.characters().iter().filter(|c| c.connection_id == A).count(), 1);
    assert_eq!(lobby.next_entity_id(), 2);
}

#[test]
fn spawn_reaches_requester_and_others_disjointly() {
    let mut lobby = ServerLobby::new();
    for id in [A, B, C] {
        lobby.on_connected(id);
    }
    let p = spawn_point();
    let outs = lobby.on_spawn_request(A, p);
    assert_eq!(received(&outs, A), vec![ServerMessage::SpawnHim { server_entity: 1, position: p }]);
    for r in [B, C] {
        assert_eq!(received(&outs, r), vec![ServerMessage::SpawnPlayer { server_entity: 1, position: p }]);
    }
}

#[test]
fn entity_ids_increase_and_are_not_reused() {
    let mut lobby = ServerLobby::new();
    lobby.on_connected(A);
    lobby.on_connected(B);
    lobby.on_spawn_request(A, spawn_point());
    lobby.on_disconnected(A, DisconnectCause::DisconnectedByClient);
    lobby.on_connected(A);
    lobby.on_spawn_request(B, spawn_point());
    lobby.on_spawn_request(A, spawn_point());
    assert_eq!(lobby.character(B).map(|c| c.entity_id), Some(2));
    assert_eq!(lobby.character(A).map(|c| c.entity_id), Some(3));
}

#[test]
fn spawn_from_unknown_connection_is_discarded() {
    let mut lobby = ServerLobby::new();
    lobby.on_connected(A);
    assert!(lobby.on_spawn_request(B, spawn_point()).is_empty());
    assert!(lobby.characters().is_empty());
    assert_eq!(lobby.next_entity_id(), 1);
}

#[test]
fn scenario_disconnect_after_spawn() {
    let mut lobby = ServerLobby::new();
    lobby.on_connected(A);
    lobby.on_connected(B);
    lobby.on_spawn_request(A, spawn_point());
    let outs = lobby.on_disconnected(A, DisconnectCause::Transport);
    assert_eq!(
        received(&outs, B),
        vec![
            ServerMessage::PlayerDisconnected { id: A, reason: DisconnectCause::Transport },
            ServerMessage::EntityRemoved { server_entity: 1 },
        ]
    );
    assert!(!lobby.is_connected(A));
    assert_eq!(lobby.character(A), None);
    assert_eq!(lobby.players(), vec![B]);
}

#[test]
fn disconnect_without_character_sends_one_notice() {
    let mut lobby = ServerLobby::new();
    for id in [A, B, C] {
        lobby.on_connected(id);
    }
    let outs = lobby.on_disconnected(B, DisconnectCause::DisconnectedByServer);
    for r in [A, C] {
        assert_eq!(
            received(&outs, r),
            vec![ServerMessage::PlayerDisconnected { id: B, reason: DisconnectCause::DisconnectedByServer }]
        );
    }
    assert_eq!(lobby.players(), vec![A, C]);
}

#[test]
fn batch_of_events_is_applied_in_order() {
    let mut lobby = ServerLobby::new();
    let events = vec![
        ServerEvent::ClientConnected { client_id: A },
        ServerEvent::ClientConnected { client_id: B },
        ServerEvent::ClientDisconnected { client_id: A, reason: DisconnectCause::Transport },
    ];
    let outs = handle_server_events(&mut lobby, &events);
    assert_eq!(
        outs,
        vec![
            Outgoing::Broadcast { message: ServerMessage::PlayerConnected { id: A } },
            Outgoing::Send { to: B, message: ServerMessage::PlayerConnected { id: A } },
            Outgoing::Broadcast { message: ServerMessage::PlayerConnected { id: B } },
            Outgoing::Broadcast {
                message: ServerMessage::PlayerDisconnected { id: A, reason: DisconnectCause::Transport },
            },
        ]
    );
    assert_eq!(lobby.players(), vec![B]);
}

#[test]
fn batch_of_messages_spawns_each_sender_once() {
    let mut lobby = ServerLobby::new();
    lobby.on_connected(A);
    lobby.on_connected(B);
    let messages = vec![(A, ClientMessage::SpawnMe), (A, ClientMessage::SpawnMe), (B, ClientMessage::SpawnMe)];
    let outs = handle_client_messages(&mut lobby, &messages, spawn_point());
    assert_eq!(outs.len(), 4);
    assert_eq!(lobby.character(A).map(|c| c.entity_id), Some(1));
    assert_eq!(lobby.character(B).map(|c| c.entity_id), Some(2));
    assert_eq!(
        received(&outs, A),
        vec![
            ServerMessage::SpawnHim { server_entity: 1, position: spawn_point() },
            ServerMessage::SpawnPlayer { server_entity: 2, position: spawn_point() },
        ]
    );
}
