//! Server-authoritative state synchronization for a small networked game.
//!
//! A server tracks which players are connected, holds the authoritative
//! position of each one, and broadcasts snapshots of the world every tick;
//! clients relay their local input and mirror the server's membership from
//! connect/disconnect messages.  Everything here works on plain values: the
//! transport that carries the framed bytes and the engine that renders the
//! handles live outside this crate.

use vstd::prelude::*;

pub mod lobby;
pub mod messages;
pub mod motion;
pub mod router;
pub mod server;
pub mod table;
pub mod wire;

verus! {

/// Protocol identifier exchanged at connection handshake; the transport
/// rejects peers whose identifier differs.
pub const PROTOCOL_ID: u64 = 7;

/// Move speed of every player, in world units per second.
pub const PLAYER_MOVE_SPEED: u64 = 100;

/// Positions are held in fixed-point micro-units: one world unit is
/// `MICROS_PER_UNIT` position steps.  One microsecond of movement at speed 1
/// advances a coordinate by exactly one step, so integration over any split
/// of a time span into ticks is exact.
pub const MICROS_PER_UNIT: u64 = 1_000_000;

/// Number of microseconds in one second, the unit of `PLAYER_MOVE_SPEED`.
pub const MICROS_PER_SECOND: u64 = 1_000_000;

/// Largest elapsed time a single tick may integrate, in microseconds
/// (about eleven days).  Keeps `PLAYER_MOVE_SPEED * dt` inside 64 bits.
pub const MAX_TICK_MICROS: u64 = 1_000_000_000_000;

/// Channel that carries `PlayerInput` payloads from client to server.
pub const PLAYER_POSITION_CHANNEL: u8 = 0;

/// Channel that carries connection lifecycle events from server to clients.
pub const CONNECTION_EVENTS_CHANNEL: u8 = 0;

/// Channel that carries `WorldSync` snapshots from server to clients.
pub const WORLD_SYNC_CHANNEL: u8 = 1;

} // verus!
