//! Wire-format and router behaviour, seen from outside the library.

use acerbus::messages::{
    decode_player_input, decode_server_message, decode_world_sync, encode_player_input,
    encode_server_message, encode_world_sync, Player, PlayerInput, Position, ProtocolError,
    ServerMessage, WorldSync,
};
use acerbus::router::{client_input_message, route_client_inbound, route_server_inbound,
    ClientBoundMessage};
use acerbus::{CONNECTION_EVENTS_CHANNEL, PLAYER_POSITION_CHANNEL, WORLD_SYNC_CHANNEL};

#[test]
fn input_encodes_to_one_byte_per_intent() {
    let i = PlayerInput { up: true, down: false, left: false, right: true };
    assert_eq!(encode_player_input(&i), vec![1u8, 0, 0, 1]);
    let j = PlayerInput { up: false, down: true, left: true, right: false };
    assert_eq!(encode_player_input(&j), vec![0u8, 1, 1, 0]);
}

#[test]
fn input_roundtrips_through_bytes() {
    for bits in 0u8..16 {
        let i = PlayerInput {
            up: bits & 1 != 0,
            down: bits & 2 != 0,
            left: bits & 4 != 0,
            right: bits & 8 != 0,
        };
        let bytes = encode_player_input(&i);
        assert_eq!(decode_player_input(&bytes), Ok(i));
    }
}

#[test]
fn input_decode_rejects_wrong_length() {
    assert_eq!(decode_player_input(&vec![1u8, 0, 0]), Err(ProtocolError::MalformedPayload));
    assert_eq!(decode_player_input(&vec![1u8, 0, 0, 0, 0]), Err(ProtocolError::MalformedPayload));
    assert_eq!(decode_player_input(&Vec::new()), Err(ProtocolError::MalformedPayload));
}

#[test]
fn input_decode_rejects_non_boolean_byte() {
    assert_eq!(decode_player_input(&vec![2u8, 0, 0, 0]), Err(ProtocolError::MalformedPayload));
    assert_eq!(decode_player_input(&vec![0u8, 0, 0, 255]), Err(ProtocolError::MalformedPayload));
}

#[test]
fn message_encodes_tag_then_little_endian_identity() {
    let m = ServerMessage::PlayerConnected { player: Player { id: 0x0102030405060708 } };
    assert_eq!(encode_server_message(&m), vec![0u8, 8, 7, 6, 5, 4, 3, 2, 1]);
    let d = ServerMessage::PlayerDisconnected { player: Player { id: 5 } };
    assert_eq!(encode_server_message(&d), vec![1u8, 5, 0, 0, 0, 0, 0, 0, 0]);
}

#[test]
fn message_roundtrips_through_bytes() {
    let ids = [0u64, 1, 42, u64::MAX];
    for &id in ids.iter() {
        let c = ServerMessage::PlayerConnected { player: Player { id } };
        assert_eq!(decode_server_message(&encode_server_message(&c)), Ok(c));
        let d = ServerMessage::PlayerDisconnected { player: Player { id } };
        assert_eq!(decode_server_message(&encode_server_message(&d)), Ok(d));
    }
}

#[test]
fn message_decode_rejects_bad_shape() {
    assert_eq!(decode_server_message(&Vec::new()), Err(ProtocolError::MalformedPayload));
    assert_eq!(decode_server_message(&vec![0u8; 8]), Err(ProtocolError::MalformedPayload));
    assert_eq!(decode_server_message(&vec![0u8; 10]), Err(ProtocolError::MalformedPayload));
    // A tag outside the two lifecycle events is refused.
    assert_eq!(decode_server_message(&vec![2u8, 0, 0, 0, 0, 0, 0, 0, 0]),
        Err(ProtocolError::MalformedPayload));
}

#[test]
fn world_sync_encodes_count_then_entries() {
    let w = WorldSync {
        players_positions: vec![(Player { id: 1 }, Position { x: -1, y: 2 })],
    };
    let mut expected: Vec<u8> = Vec::new();
    expected.extend_from_slice(&[1, 0, 0, 0, 0, 0, 0, 0]); // one entry
    expected.extend_from_slice(&[1, 0, 0, 0, 0, 0, 0, 0]); // identity 1
    expected.extend_from_slice(&[0xff; 8]); // x = -1
    expected.extend_from_slice(&[2, 0, 0, 0, 0, 0, 0, 0]); // y = 2
    assert_eq!(encode_world_sync(&w), expected);
}

#[test]
fn world_sync_roundtrips_through_bytes() {
    let w = WorldSync {
        players_positions: vec![
            (Player { id: 7 }, Position { x: 0, y: 0 }),
            (Player { id: 8 }, Position { x: i64::MIN, y: i64::MAX }),
            (Player { id: 9 }, Position { x: -123456789, y: 987654321 }),
        ],
    };
    let bytes = encode_world_sync(&w);
    let back = decode_world_sync(&bytes).unwrap();
    assert_eq!(back.players_positions, w.players_positions);
}

#[test]
fn world_sync_empty_roundtrips() {
    let w = WorldSync { players_positions: Vec::new() };
    let bytes = encode_world_sync(&w);
    assert_eq!(bytes, vec![0u8; 8]);
    let back = decode_world_sync(&bytes).unwrap();
    assert!(back.players_positions.is_empty());
}

#[test]
fn world_sync_decode_rejects_bad_shape() {
    assert_eq!(decode_world_sync(&vec![0u8; 7]), Err(ProtocolError::MalformedPayload));
    // Count claims one entry but none follows.
    assert_eq!(decode_world_sync(&vec![1, 0, 0, 0, 0, 0, 0, 0]),
        Err(ProtocolError::MalformedPayload));
    // Entry bytes whose count disagrees.
    let mut b = vec![2u8, 0, 0, 0, 0, 0, 0, 0];
    b.extend_from_slice(&[0u8; 24]);
    assert_eq!(decode_world_sync(&b), Err(ProtocolError::MalformedPayload));
    // Trailing garbage after a well-formed snapshot.
    let mut ok = encode_world_sync(&WorldSync { players_positions: Vec::new() });
    ok.push(0);
    assert_eq!(decode_world_sync(&ok), Err(ProtocolError::MalformedPayload));
}

#[test]
fn client_router_classifies_by_channel() {
    let m = ServerMessage::PlayerConnected { player: Player { id: 3 } };
    let bytes = encode_server_message(&m);
    match route_client_inbound(CONNECTION_EVENTS_CHANNEL, &bytes) {
        Ok(ClientBoundMessage::Event(got)) => assert_eq!(got, m),
        other => panic!("unexpected routing result: {:?}", other),
    }
    let w = WorldSync { players_positions: vec![(Player { id: 3 }, Position { x: 1, y: 2 })] };
    let bytes = encode_world_sync(&w);
    match route_client_inbound(WORLD_SYNC_CHANNEL, &bytes) {
        Ok(ClientBoundMessage::Sync(got)) => {
            assert_eq!(got.players_positions, w.players_positions)
        },
        other => panic!("unexpected routing result: {:?}", other),
    }
}

#[test]
fn client_router_surfaces_fatal_error_on_malformed_payload() {
    // Bytes that fail to deserialize into the channel's expected message
    // type surface a fatal error instead of being dropped or reinterpreted.
    let garbage = vec![9u8, 9, 9];
    assert_eq!(route_client_inbound(CONNECTION_EVENTS_CHANNEL, &garbage),
        Err(ProtocolError::MalformedPayload));
    assert_eq!(route_client_inbound(WORLD_SYNC_CHANNEL, &garbage),
        Err(ProtocolError::MalformedPayload));
    // A snapshot on the events channel is a shape mismatch too.
    let w = WorldSync { players_positions: Vec::new() };
    assert_eq!(route_client_inbound(CONNECTION_EVENTS_CHANNEL, &encode_world_sync(&w)),
        Err(ProtocolError::MalformedPayload));
}

#[test]
fn router_rejects_unknown_channel() {
    let bytes = vec![0u8; 9];
    assert_eq!(route_client_inbound(7, &bytes), Err(ProtocolError::UnknownChannel));
    assert_eq!(route_server_inbound(7, &bytes), Err(ProtocolError::UnknownChannel));
}

#[test]
fn server_router_decodes_input_channel() {
    let i = PlayerInput { up: true, down: false, left: true, right: false };
    let bytes = encode_player_input(&i);
    assert_eq!(route_server_inbound(PLAYER_POSITION_CHANNEL, &bytes), Ok(i));
    assert_eq!(route_server_inbound(PLAYER_POSITION_CHANNEL, &vec![5u8]),
        Err(ProtocolError::MalformedPayload));
}

#[test]
fn input_relay_frames_for_the_input_channel() {
    let i = PlayerInput { up: false, down: false, left: false, right: true };
    let (channel, bytes) = client_input_message(&i);
    assert_eq!(channel, PLAYER_POSITION_CHANNEL);
    assert_eq!(bytes, vec![0u8, 0, 0, 1]);
}
