//! Whole-tick behaviour of the server: scenarios over connection events,
//! input drains, movement and snapshots.

use acerbus::messages::{
    decode_world_sync, encode_player_input, Player, PlayerInput, Position, ProtocolError,
    WorldSync,
};
use acerbus::router::{Destination, OutboundMessage};
use acerbus::server::{server_tick, ConnectionEvent, ServerWorld};
use acerbus::{MICROS_PER_SECOND, MICROS_PER_UNIT, WORLD_SYNC_CHANNEL};

fn sync_of(out: &[OutboundMessage]) -> WorldSync {
    let last = out.last().expect("a tick always ends with a snapshot");
    assert_eq!(last.channel, WORLD_SYNC_CHANNEL);
    assert_eq!(last.dest, Destination::Broadcast);
    decode_world_sync(&last.payload).expect("the snapshot the server built decodes")
}

fn position_of(sync: &WorldSync, p: Player) -> Option<Position> {
    let mut found = None;
    for (q, pos) in sync.players_positions.iter() {
        if *q == p {
            found = Some(*pos);
        }
    }
    found
}

#[test]
fn held_input_moves_a_player_and_only_that_player() {
    // A connects, B connects, A holds "up" for one second at 100 units/s:
    // the snapshot reports A at (0, 100) world units and B at the origin.
    let a = Player { id: 1 };
    let b = Player { id: 2 };
    let mut world = ServerWorld::new();
    let events = vec![
        ConnectionEvent::Connected { player: a },
        ConnectionEvent::Connected { player: b },
    ];
    let up = PlayerInput { up: true, down: false, left: false, right: false };
    let inputs = vec![(a, encode_player_input(&up))];
    let out = server_tick(&mut world, &events, &inputs, MICROS_PER_SECOND).unwrap();
    let sync = sync_of(&out);
    let pos_a = position_of(&sync, a).unwrap();
    let pos_b = position_of(&sync, b).unwrap();
    assert_eq!(pos_a, Position { x: 0, y: 100 * MICROS_PER_UNIT as i64 });
    assert_eq!(pos_b, Position { x: 0, y: 0 });
}

#[test]
fn movement_is_independent_of_tick_granularity() {
    // Holding "right" for one second in one tick or in four quarter-second
    // ticks advances x by exactly the same amount.
    let a = Player { id: 1 };
    let right = PlayerInput { up: false, down: false, left: false, right: true };

    let mut one = ServerWorld::new();
    let join = vec![ConnectionEvent::Connected { player: a }];
    let press = vec![(a, encode_player_input(&right))];
    server_tick(&mut one, &join, &press, 0).unwrap();
    let out = server_tick(&mut one, &Vec::new(), &Vec::new(), MICROS_PER_SECOND).unwrap();
    let coarse = position_of(&sync_of(&out), a).unwrap();

    let mut four = ServerWorld::new();
    let press = vec![(a, encode_player_input(&right))];
    server_tick(&mut four, &join, &press, 0).unwrap();
    let mut fine = Position { x: 0, y: 0 };
    for _ in 0..4 {
        let out = server_tick(&mut four, &Vec::new(), &Vec::new(), MICROS_PER_SECOND / 4).unwrap();
        fine = position_of(&sync_of(&out), a).unwrap();
    }
    assert_eq!(coarse, fine);
    assert_eq!(coarse.x, 100 * MICROS_PER_UNIT as i64);
}

#[test]
fn noop_ticks_give_bit_identical_snapshots() {
    // No input change and no elapsed time: repeated snapshot broadcasts
    // are bit-identical.
    let a = Player { id: 1 };
    let b = Player { id: 2 };
    let mut world = ServerWorld::new();
    let events = vec![
        ConnectionEvent::Connected { player: a },
        ConnectionEvent::Connected { player: b },
    ];
    let go = PlayerInput { up: true, down: false, left: false, right: true };
    let inputs = vec![(a, encode_player_input(&go))];
    server_tick(&mut world, &events, &inputs, 123_456).unwrap();

    let first = server_tick(&mut world, &Vec::new(), &Vec::new(), 0).unwrap();
    let second = server_tick(&mut world, &Vec::new(), &Vec::new(), 0).unwrap();
    assert_eq!(first.last().unwrap().payload, second.last().unwrap().payload);
}

#[test]
fn disconnect_completes_the_tick_and_the_next_broadcast_excludes_the_leaver() {
    let a = Player { id: 1 };
    let b = Player { id: 2 };
    let mut world = ServerWorld::new();
    let events = vec![
        ConnectionEvent::Connected { player: a },
        ConnectionEvent::Connected { player: b },
    ];
    server_tick(&mut world, &events, &Vec::new(), 0).unwrap();

    // A leaves while B is mid-session; the tick completes without error.
    let leave = vec![ConnectionEvent::Disconnected { player: a }];
    let out = server_tick(&mut world, &leave, &Vec::new(), 0).unwrap();
    let sync = sync_of(&out);
    assert_eq!(position_of(&sync, a), None);
    assert!(position_of(&sync, b).is_some());
    assert_eq!(sync.players_positions.len(), 1);
}

#[test]
fn disconnect_of_absent_player_is_tolerated() {
    let mut world = ServerWorld::new();
    let leave = vec![ConnectionEvent::Disconnected { player: Player { id: 42 } }];
    let out = server_tick(&mut world, &leave, &Vec::new(), 0).unwrap();
    // The departure is still announced, and the tick ends normally.
    assert_eq!(out.len(), 2);
    assert!(sync_of(&out).players_positions.is_empty());
}

#[test]
fn malformed_input_payload_is_fatal_to_the_tick() {
    let a = Player { id: 1 };
    let mut world = ServerWorld::new();
    let join = vec![ConnectionEvent::Connected { player: a }];
    server_tick(&mut world, &join, &Vec::new(), 0).unwrap();

    let garbage = vec![(a, vec![7u8, 7, 7, 7, 7])];
    let r = server_tick(&mut world, &Vec::new(), &garbage, 0);
    assert_eq!(r, Err(ProtocolError::MalformedPayload));
}

#[test]
fn input_from_unknown_sender_is_ignored() {
    let a = Player { id: 1 };
    let stranger = Player { id: 9 };
    let mut world = ServerWorld::new();
    let join = vec![ConnectionEvent::Connected { player: a }];
    let right = PlayerInput { up: false, down: false, left: false, right: true };
    let inputs = vec![(stranger, encode_player_input(&right))];
    server_tick(&mut world, &join, &inputs, 0).unwrap();
    let out = server_tick(&mut world, &Vec::new(), &Vec::new(), MICROS_PER_SECOND).unwrap();
    let sync = sync_of(&out);
    assert_eq!(position_of(&sync, a), Some(Position { x: 0, y: 0 }));
    assert_eq!(position_of(&sync, stranger), None);
}

#[test]
fn latest_input_wins_within_one_drain() {
    let a = Player { id: 1 };
    let mut world = ServerWorld::new();
    let join = vec![ConnectionEvent::Connected { player: a }];
    let right = PlayerInput { up: false, down: false, left: false, right: true };
    let idle = PlayerInput { up: false, down: false, left: false, right: false };
    let inputs = vec![
        (a, encode_player_input(&right)),
        (a, encode_player_input(&idle)),
    ];
    server_tick(&mut world, &join, &inputs, 0).unwrap();
    let out = server_tick(&mut world, &Vec::new(), &Vec::new(), MICROS_PER_SECOND).unwrap();
    // The later, idle sample overwrote the earlier one wholesale.
    assert_eq!(position_of(&sync_of(&out), a), Some(Position { x: 0, y: 0 }));
}

#[test]
fn opposing_intents_cancel() {
    let a = Player { id: 1 };
    let mut world = ServerWorld::new();
    let join = vec![ConnectionEvent::Connected { player: a }];
    let pinned = PlayerInput { up: true, down: true, left: true, right: false };
    let inputs = vec![(a, encode_player_input(&pinned))];
    server_tick(&mut world, &join, &inputs, 0).unwrap();
    let out = server_tick(&mut world, &Vec::new(), &Vec::new(), MICROS_PER_SECOND).unwrap();
    // up and down cancel; left alone pulls x negative.
    assert_eq!(
        position_of(&sync_of(&out), a),
        Some(Position { x: -100 * MICROS_PER_UNIT as i64, y: 0 })
    );
}
