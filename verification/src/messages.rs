//! Wire messages and their binary forms.
//!
//! Three message kinds cross the transport: connection lifecycle events
//! (`ServerMessage`), per-tick input samples (`PlayerInput`) and world
//! snapshots (`WorldSync`).  Each has a fixed binary shape; decoding admits
//! exactly the byte strings that encoding produces, and a payload of any
//! other shape is reported as a protocol error, which callers treat as fatal.

use vstd::prelude::*;

use crate::wire::{
    i64_bits, lemma_i64_bits_canonical, lemma_u64_le_canonical,
    lemma_u64_le_roundtrip, read_u64_le, u64_from_le, u64_le_bytes, write_u64_le,
};

verus! {

/// Process-unique identity the server assigns to a participant at connection
/// time; the sole cross-process key for that participant's state.
#[derive(Debug, Clone, Copy, PartialEq, Eq, Hash, Structural)]
pub struct Player {
    pub id: u64,
}

/// One tick's worth of local intent, sampled wholesale; no queuing, the
/// latest received sample wins.
#[derive(Debug, Default, Clone, Copy, PartialEq, Eq, Structural)]
pub struct PlayerInput {
    pub up: bool,
    pub down: bool,
    pub left: bool,
    pub right: bool,
}

/// A 2D position in fixed-point micro-units (`MICROS_PER_UNIT` steps per
/// world unit).  Coordinates wrap modulo the 64-bit range, which keeps
/// movement total and bit-exact.
#[derive(Debug, Clone, Copy, PartialEq, Eq, Structural)]
pub struct Position {
    pub x: i64,
    pub y: i64,
}

/// The two connection lifecycle events; the only messages that change a
/// client's view of lobby membership.
#[derive(Debug, Clone, Copy, PartialEq, Eq, Structural)]
pub enum ServerMessage {
    PlayerConnected { player: Player },
    PlayerDisconnected { player: Player },
}

/// One complete snapshot of every tracked position, produced anew each
/// server tick and broadcast wholesale; order follows the server's lobby.
#[derive(Debug, Default, Clone, PartialEq)]
pub struct WorldSync {
    pub players_positions: Vec<(Player, Position)>,
}

/// Why a payload was refused.  Either is fatal to the receiving process:
/// a mismatch here means protocol version skew, not recoverable data loss.
#[derive(Debug, Clone, Copy, PartialEq, Eq, Structural)]
pub enum ProtocolError {
    /// The payload does not have the shape the channel calls for.
    MalformedPayload,
    /// The channel id is not one the protocol assigns.
    UnknownChannel,
}

/// The wire byte for one boolean intent.
pub open spec fn bool_byte(b: bool) -> u8 {
    if b {
        1
    } else {
        0
    }
}

/// The four-byte form of an input sample: up, down, left, right.
pub open spec fn input_bytes(i: PlayerInput) -> Seq<u8> {
    seq![bool_byte(i.up), bool_byte(i.down), bool_byte(i.left), bool_byte(i.right)]
}

/// Whether a payload has the shape of an input sample.
pub open spec fn input_payload_wf(b: Seq<u8>) -> bool {
    b.len() == 4 && b[0] <= 1 && b[1] <= 1 && b[2] <= 1 && b[3] <= 1
}

/// The input sample a well-shaped payload denotes.
pub open spec fn parsed_input(b: Seq<u8>) -> PlayerInput
    recommends
        input_payload_wf(b),
{
    PlayerInput { up: b[0] == 1, down: b[1] == 1, left: b[2] == 1, right: b[3] == 1 }
}

/// Serializes an input sample for the input channel.
pub fn encode_player_input(i: &PlayerInput) -> (r: Vec<u8>)
    ensures
        r@ == input_bytes(*i),
{
    let mut out: Vec<u8> = Vec::new();
    out.push(if i.up { 1 } else { 0 });
    out.push(if i.down { 1 } else { 0 });
    out.push(if i.left { 1 } else { 0 });
    out.push(if i.right { 1 } else { 0 });
    proof {
        assert(out@ =~= input_bytes(*i));
    }
    out
}

/// Deserializes an input sample; returns `Ok` exactly on the byte strings
/// that `encode_player_input` produces.
pub fn decode_player_input(b: &Vec<u8>) -> (r: Result<PlayerInput, ProtocolError>)
    ensures
        r is Ok <==> input_payload_wf(b@),
        r matches Ok(i) ==> i == parsed_input(b@) && b@ == input_bytes(i),
        r matches Err(e) ==> e == ProtocolError::MalformedPayload,
{
    if b.len() != 4 {
        return Err(ProtocolError::MalformedPayload);
    }
    if b[0] > 1 || b[1] > 1 || b[2] > 1 || b[3] > 1 {
        return Err(ProtocolError::MalformedPayload);
    }
    let i = PlayerInput { up: b[0] == 1, down: b[1] == 1, left: b[2] == 1, right: b[3] == 1 };
    proof {
        assert(b@ =~= input_bytes(i));
    }
    Ok(i)
}

/// The tag byte of a lifecycle event.
pub open spec fn message_tag(m: ServerMessage) -> u8 {
    match m {
        ServerMessage::PlayerConnected { .. } => 0,
        ServerMessage::PlayerDisconnected { .. } => 1,
    }
}

/// The identity a lifecycle event speaks of.
pub open spec fn message_player(m: ServerMessage) -> Player {
    match m {
        ServerMessage::PlayerConnected { player } => player,
        ServerMessage::PlayerDisconnected { player } => player,
    }
}

/// The nine-byte form of a lifecycle event: tag, then the identity.
pub open spec fn message_bytes(m: ServerMessage) -> Seq<u8> {
    seq![message_tag(m)] + u64_le_bytes(message_player(m).id)
}

/// Whether a payload has the shape of a lifecycle event.
pub open spec fn message_payload_wf(b: Seq<u8>) -> bool {
    b.len() == 9 && b[0] <= 1
}

/// The lifecycle event a well-shaped payload denotes.
pub open spec fn parsed_message(b: Seq<u8>) -> ServerMessage
    recommends
        message_payload_wf(b),
{
    let player = Player { id: u64_from_le(b.subrange(1, 9)) };
    if b[0] == 0 {
        ServerMessage::PlayerConnected { player }
    } else {
        ServerMessage::PlayerDisconnected { player }
    }
}

/// Serializes a lifecycle event for the connection-events channel.
pub fn encode_server_message(m: &ServerMessage) -> (r: Vec<u8>)
    ensures
        r@ == message_bytes(*m),
{
    let mut out: Vec<u8> = Vec::new();
    match m {
        ServerMessage::PlayerConnected { .. } => out.push(0),
        ServerMessage::PlayerDisconnected { .. } => out.push(1),
    }
    let player = match m {
        ServerMessage::PlayerConnected { player } => *player,
        ServerMessage::PlayerDisconnected { player } => *player,
    };
    write_u64_le(&mut out, player.id);
    proof {
        assert(out@ =~= message_bytes(*m));
    }
    out
}

/// Deserializes a lifecycle event; returns `Ok` exactly on the byte strings
/// that `encode_server_message` produces.
pub fn decode_server_message(b: &Vec<u8>) -> (r: Result<ServerMessage, ProtocolError>)
    ensures
        r is Ok <==> message_payload_wf(b@),
        r matches Ok(m) ==> m == parsed_message(b@) && b@ == message_bytes(m),
        r matches Err(e) ==> e == ProtocolError::MalformedPayload,
{
    if b.len() != 9 {
        return Err(ProtocolError::MalformedPayload);
    }
    if b[0] > 1 {
        return Err(ProtocolError::MalformedPayload);
    }
    let id = read_u64_le(b, 1);
    let player = Player { id };
    let m = if b[0] == 0 {
        ServerMessage::PlayerConnected { player }
    } else {
        ServerMessage::PlayerDisconnected { player }
    };
    proof {
        lemma_u64_le_canonical(b@.subrange(1, 9));
        assert(b@ =~= message_bytes(m));
    }
    Ok(m)
}

/// A lifecycle event survives the trip through its bytes: its encoding is
/// well-shaped and parses back to the event itself.
pub proof fn lemma_message_roundtrip(m: ServerMessage)
    ensures
        message_payload_wf(message_bytes(m)),
        parsed_message(message_bytes(m)) == m,
{
    let b = message_bytes(m);
    assert(b.subrange(1, 9) =~= u64_le_bytes(message_player(m).id));
    lemma_u64_le_roundtrip(message_player(m).id);
}

/// The 24-byte form of one snapshot entry: identity, then the bit patterns
/// of the two coordinates, each little-endian.
pub open spec fn entry_bytes(e: (Player, Position)) -> Seq<u8> {
    u64_le_bytes(e.0.id) + u64_le_bytes(i64_bits(e.1.x)) + u64_le_bytes(i64_bits(e.1.y))
}

/// The concatenated entries of a snapshot, in snapshot order.
pub open spec fn sync_entries_bytes(s: Seq<(Player, Position)>) -> Seq<u8>
    decreases s.len(),
{
    if s.len() == 0 {
        Seq::empty()
    } else {
        sync_entries_bytes(s.drop_last()) + entry_bytes(s.last())
    }
}

/// The form of a whole snapshot: entry count, then the entries.
pub open spec fn sync_bytes(s: Seq<(Player, Position)>) -> Seq<u8>
    recommends
        s.len() <= u64::MAX,
{
    u64_le_bytes(s.len() as u64) + sync_entries_bytes(s)
}

/// A snapshot's entries take 24 bytes each.
pub proof fn lemma_sync_entries_len(s: Seq<(Player, Position)>)
    ensures
        sync_entries_bytes(s).len() == 24 * s.len(),
    decreases s.len(),
{
    if s.len() > 0 {
        lemma_sync_entries_len(s.drop_last());
    }
}

/// Extending a snapshot by one entry appends that entry's bytes.
pub proof fn lemma_sync_entries_push(s: Seq<(Player, Position)>, i: int)
    requires
        0 <= i < s.len(),
    ensures
        sync_entries_bytes(s.subrange(0, i + 1)) == sync_entries_bytes(s.subrange(0, i))
            + entry_bytes(s[i]),
{
    let t = s.subrange(0, i + 1);
    assert(t.drop_last() =~= s.subrange(0, i));
    assert(t.last() == s[i]);
}

/// Serializes a snapshot for the world-sync channel.  The bytes are a
/// function of the entry sequence alone, so two identical snapshots have
/// bit-identical encodings.
pub fn encode_world_sync(w: &WorldSync) -> (r: Vec<u8>)
    ensures
        r@ == sync_bytes(w.players_positions@),
{
    let n = w.players_positions.len();
    let mut out: Vec<u8> = Vec::new();
    write_u64_le(&mut out, n as u64);
    let mut i: usize = 0;
    while i < n
        invariant
            i <= n,
            n == w.players_positions@.len(),
            out@ == u64_le_bytes(n as u64) + sync_entries_bytes(
                w.players_positions@.subrange(0, i as int),
            ),
        decreases n - i,
    {
        let (p, pos) = w.players_positions[i];
        write_u64_le(&mut out, p.id);
        write_u64_le(&mut out, pos.x as u64);
        write_u64_le(&mut out, pos.y as u64);
        proof {
            lemma_sync_entries_push(w.players_positions@, i as int);
        }
        i = i + 1;
    }
    proof {
        assert(w.players_positions@.subrange(0, n as int) =~= w.players_positions@);
    }
    out
}

/// Deserializes a snapshot; returns `Ok` exactly on the byte strings that
/// `encode_world_sync` produces, and refuses every other payload.
pub fn decode_world_sync(b: &Vec<u8>) -> (r: Result<WorldSync, ProtocolError>)
    ensures
        r matches Ok(w) ==> b@ == sync_bytes(w.players_positions@),
        r is Err ==> forall|s: Seq<(Player, Position)>| b@ != sync_bytes(s),
        r matches Err(e) ==> e == ProtocolError::MalformedPayload,
{
    let n = b.len();
    if n < 8 {
        proof {
            assert forall|s: Seq<(Player, Position)>| b@ != sync_bytes(s) by {
                lemma_sync_entries_len(s);
            }
        }
        return Err(ProtocolError::MalformedPayload);
    }
    let count = read_u64_le(b, 0);
    let rest = n - 8;
    let k = rest / 24;
    if rest % 24 != 0 || count != k as u64 {
        proof {
            assert forall|s: Seq<(Player, Position)>| b@ != sync_bytes(s) by {
                if b@ == sync_bytes(s) {
                    lemma_sync_entries_len(s);
                    assert(b@.subrange(0, 8) =~= u64_le_bytes(s.len() as u64));
                    lemma_u64_le_roundtrip(s.len() as u64);
                    assert(count == s.len() as u64);
                    assert(rest == 24 * s.len());
                }
            }
        }
        return Err(ProtocolError::MalformedPayload);
    }
    let mut entries: Vec<(Player, Position)> = Vec::new();
    let mut j: usize = 0;
    while j < k
        invariant
            j <= k,
            n == b@.len(),
            8 + 24 * k <= n,
            entries@.len() == j,
            sync_entries_bytes(entries@) == b@.subrange(8, 8 + 24 * j as int),
        decreases k - j,
    {
        let off = 8 + 24 * j;
        let id = read_u64_le(b, off);
        let xbits = read_u64_le(b, off + 8);
        let ybits = read_u64_le(b, off + 16);
        let entry = (Player { id }, Position { x: xbits as i64, y: ybits as i64 });
        let ghost prev = entries@;
        entries.push(entry);
        proof {
            lemma_u64_le_canonical(b@.subrange(off as int, off as int + 8));
            lemma_u64_le_canonical(b@.subrange(off as int + 8, off as int + 16));
            lemma_u64_le_canonical(b@.subrange(off as int + 16, off as int + 24));
            lemma_i64_bits_canonical(xbits);
            lemma_i64_bits_canonical(ybits);
            assert(entry_bytes(entry) =~= b@.subrange(off as int, off as int + 24));
            assert(entries@.drop_last() =~= prev);
            assert(sync_entries_bytes(entries@) =~= b@.subrange(8, 8 + 24 * (j + 1) as int));
        }
        j = j + 1;
    }
    let w = WorldSync { players_positions: entries };
    proof {
        lemma_u64_le_canonical(b@.subrange(0, 8));
        assert(b@.subrange(0, 8) == u64_le_bytes(count));
        assert(b@.subrange(8, 8 + 24 * k as int) =~= b@.subrange(8, n as int));
        assert(b@ =~= sync_bytes(w.players_positions@));
    }
    Ok(w)
}

} // verus!
