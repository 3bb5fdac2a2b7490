//! Lobby bookkeeping and client-side membership mirroring.

use acerbus::lobby::{apply_world_sync, Lobby};
use acerbus::messages::{Player, Position, ServerMessage, WorldSync};
use acerbus::router::{route_client_inbound, ClientBoundMessage, Destination};
use acerbus::server::{handle_connection_event, ConnectionEvent, ServerWorld};
use acerbus::CONNECTION_EVENTS_CHANNEL;

#[test]
fn lobby_insert_remove_get() {
    let a = Player { id: 1 };
    let b = Player { id: 2 };
    let mut lobby = Lobby::new();
    assert_eq!(lobby.len(), 0);
    lobby.insert(a, 10);
    lobby.insert(b, 20);
    assert_eq!(lobby.len(), 2);
    assert!(lobby.contains(a));
    assert_eq!(lobby.get(a), Some(10));
    assert_eq!(lobby.get(b), Some(20));
    lobby.insert(a, 11);
    assert_eq!(lobby.len(), 2);
    assert_eq!(lobby.get(a), Some(11));
    assert_eq!(lobby.remove(a), Some(11));
    assert_eq!(lobby.len(), 1);
    assert!(!lobby.contains(a));
    assert_eq!(lobby.get(a), None);
}

#[test]
fn lobby_remove_of_absent_player_is_a_no_op() {
    let a = Player { id: 1 };
    let mut lobby = Lobby::new();
    lobby.insert(a, 10);
    // A disconnect racing ahead of the connect announcement is tolerated.
    assert_eq!(lobby.remove(Player { id: 99 }), None);
    assert_eq!(lobby.len(), 1);
    assert_eq!(lobby.get(a), Some(10));
}

#[test]
fn lobby_apply_connect_and_disconnect() {
    let a = Player { id: 1 };
    let mut lobby = Lobby::new();
    let none = lobby.apply(&ServerMessage::PlayerConnected { player: a }, 10);
    assert_eq!(none, None);
    assert_eq!(lobby.get(a), Some(10));
    let gone = lobby.apply(&ServerMessage::PlayerDisconnected { player: a }, 0);
    assert_eq!(gone, Some(10));
    assert!(!lobby.contains(a));
    let still_gone = lobby.apply(&ServerMessage::PlayerDisconnected { player: a }, 0);
    assert_eq!(still_gone, None);
}

#[test]
fn joining_client_reconstructs_membership() {
    // Two players sit on the server; a third joins.  Applying everything
    // the joiner receives to an empty lobby yields the two players present
    // at the moment of join, plus the joiner itself.
    let a = Player { id: 1 };
    let b = Player { id: 2 };
    let c = Player { id: 3 };
    let mut world = ServerWorld::new();
    let mut setup: Vec<acerbus::router::OutboundMessage> = Vec::new();
    handle_connection_event(&mut world, &ConnectionEvent::Connected { player: a }, &mut setup);
    handle_connection_event(&mut world, &ConnectionEvent::Connected { player: b }, &mut setup);

    let mut joined: Vec<acerbus::router::OutboundMessage> = Vec::new();
    handle_connection_event(&mut world, &ConnectionEvent::Connected { player: c }, &mut joined);

    // The joiner sees the messages addressed to it and the broadcasts.
    let mut client = Lobby::new();
    let mut next_handle: u64 = 100;
    for msg in joined.iter() {
        let for_joiner = match msg.dest {
            Destination::Single { player } => player == c,
            Destination::Broadcast => true,
        };
        if !for_joiner {
            continue;
        }
        match route_client_inbound(msg.channel, &msg.payload) {
            Ok(ClientBoundMessage::Event(ev)) => {
                client.apply(&ev, next_handle);
                next_handle += 1;
            },
            other => panic!("joiner received an unexpected message: {:?}", other),
        }
    }
    assert_eq!(client.len(), 3);
    assert!(client.contains(a));
    assert!(client.contains(b));
    assert!(client.contains(c));
}

#[test]
fn join_messages_cover_existing_players_then_announce_joiner() {
    let a = Player { id: 1 };
    let b = Player { id: 2 };
    let c = Player { id: 3 };
    let mut world = ServerWorld::new();
    let mut setup: Vec<acerbus::router::OutboundMessage> = Vec::new();
    handle_connection_event(&mut world, &ConnectionEvent::Connected { player: a }, &mut setup);
    handle_connection_event(&mut world, &ConnectionEvent::Connected { player: b }, &mut setup);

    let mut joined: Vec<acerbus::router::OutboundMessage> = Vec::new();
    handle_connection_event(&mut world, &ConnectionEvent::Connected { player: c }, &mut joined);

    assert_eq!(joined.len(), 3);
    // Catch-up messages go to the joiner alone, in lobby order.
    assert_eq!(joined[0].dest, Destination::Single { player: c });
    assert_eq!(joined[1].dest, Destination::Single { player: c });
    assert_eq!(joined[0].channel, CONNECTION_EVENTS_CHANNEL);
    match route_client_inbound(joined[0].channel, &joined[0].payload) {
        Ok(ClientBoundMessage::Event(ServerMessage::PlayerConnected { player })) => {
            assert_eq!(player, a)
        },
        other => panic!("unexpected first catch-up message: {:?}", other),
    }
    match route_client_inbound(joined[1].channel, &joined[1].payload) {
        Ok(ClientBoundMessage::Event(ServerMessage::PlayerConnected { player })) => {
            assert_eq!(player, b)
        },
        other => panic!("unexpected second catch-up message: {:?}", other),
    }
    // Then the joiner itself is announced to everyone.
    assert_eq!(joined[2].dest, Destination::Broadcast);
    match route_client_inbound(joined[2].channel, &joined[2].payload) {
        Ok(ClientBoundMessage::Event(ServerMessage::PlayerConnected { player })) => {
            assert_eq!(player, c)
        },
        other => panic!("unexpected announcement: {:?}", other),
    }
}

#[test]
fn world_sync_updates_only_known_players() {
    let a = Player { id: 1 };
    let stranger = Player { id: 9 };
    let mut lobby = Lobby::new();
    lobby.insert(a, 10);
    let sync = WorldSync {
        players_positions: vec![
            (a, Position { x: 4, y: 5 }),
            (stranger, Position { x: 6, y: 7 }),
        ],
    };
    let updates = apply_world_sync(&lobby, &sync);
    // The stranger's entry is ignored; only lifecycle messages change
    // membership, and a snapshot never adds or removes anyone.
    assert_eq!(updates, vec![(10u64, Position { x: 4, y: 5 })]);
    assert_eq!(lobby.len(), 1);
}
