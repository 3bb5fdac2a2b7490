//! Movement integration: advancing a position from an input sample and an
//! elapsed time.
//!
//! A velocity component is `+1`, `0` or `-1` (right minus left, up minus
//! down), scaled by the fixed move speed and by the elapsed microseconds.
//! Coordinates are fixed-point integers that wrap modulo the 64-bit range,
//! so integration is a pure function of input history and time deltas:
//! two runs over the same history give bit-identical positions, and
//! splitting a time span into ticks in any way gives the same result.

use vstd::prelude::*;

use vstd::arithmetic::div_mod::{
    lemma_add_mod_noop, lemma_mod_add_multiples_vanish, lemma_mod_sub_multiples_vanish,
    lemma_small_mod,
};
use vstd::arithmetic::mul::lemma_mul_is_distributive_add;

use crate::messages::{PlayerInput, Position};
use crate::{MAX_TICK_MICROS, PLAYER_MOVE_SPEED};

verus! {

/// The coordinate of the 64-bit range that an unbounded integer wraps to.
pub open spec fn wrap_i64(v: int) -> i64 {
    let m = v % 0x1_0000_0000_0000_0000;
    if m > i64::MAX {
        (m - 0x1_0000_0000_0000_0000) as i64
    } else {
        m as i64
    }
}

/// Horizontal velocity direction of an input sample: right minus left.
pub open spec fn dir_x(i: PlayerInput) -> int {
    (if i.right {
        1int
    } else {
        0int
    }) - (if i.left {
        1int
    } else {
        0int
    })
}

/// Vertical velocity direction of an input sample: up minus down.
pub open spec fn dir_y(i: PlayerInput) -> int {
    (if i.up {
        1int
    } else {
        0int
    }) - (if i.down {
        1int
    } else {
        0int
    })
}

/// One coordinate after moving in direction `d` for `dt` microseconds.
pub open spec fn stepped(x: i64, d: int, dt: u64) -> i64 {
    wrap_i64(x + d * PLAYER_MOVE_SPEED * dt)
}

/// A position after one integration step of an input sample.
pub open spec fn moved(pos: Position, i: PlayerInput, dt: u64) -> Position {
    Position { x: stepped(pos.x, dir_x(i), dt), y: stepped(pos.y, dir_y(i), dt) }
}

/// Wrapping changes a value by a multiple of the range: wrapped and
/// unwrapped value are congruent.
proof fn lemma_wrap_mod(v: int)
    ensures
        (wrap_i64(v) as int) % 0x1_0000_0000_0000_0000 == v % 0x1_0000_0000_0000_0000,
{
    let r = 0x1_0000_0000_0000_0000;
    let m = v % r;
    lemma_small_mod(m as nat, r as nat);
    if m > i64::MAX {
        lemma_mod_sub_multiples_vanish(m, r);
    }
}

/// A value already in the 64-bit range wraps to itself.
pub proof fn lemma_wrap_in_range(v: int)
    requires
        i64::MIN <= v <= i64::MAX,
    ensures
        wrap_i64(v) == v,
{
    let r = 0x1_0000_0000_0000_0000;
    if v >= 0 {
        lemma_small_mod(v as nat, r as nat);
    } else {
        lemma_mod_add_multiples_vanish(v, r);
        lemma_small_mod((v + r) as nat, r as nat);
    }
}

/// Wrapping one addend first does not change a wrapped sum.
pub proof fn lemma_wrap_add(a: int, b: int)
    ensures
        wrap_i64(wrap_i64(a) + b) == wrap_i64(a + b),
{
    let r = 0x1_0000_0000_0000_0000;
    lemma_wrap_mod(a);
    lemma_add_mod_noop(wrap_i64(a) as int, b, r);
    lemma_add_mod_noop(a, b, r);
}

/// How a 64-bit wrap behaves near the representable range: one correction
/// by the range size at most.
pub proof fn lemma_wrap_near_range(v: int)
    requires
        i64::MIN - 0x1_0000_0000_0000_0000 <= v <= i64::MAX + 0x1_0000_0000_0000_0000,
    ensures
        v > i64::MAX ==> wrap_i64(v) == v - 0x1_0000_0000_0000_0000,
        v < i64::MIN ==> wrap_i64(v) == v + 0x1_0000_0000_0000_0000,
        i64::MIN <= v <= i64::MAX ==> wrap_i64(v) == v,
{
    let r = 0x1_0000_0000_0000_0000;
    if v > i64::MAX {
        lemma_mod_add_multiples_vanish(v - r, r);
        lemma_wrap_in_range(v - r);
        lemma_wrap_mod(v - r);
        assert(v % r == (v - r) % r);
    } else if v < i64::MIN {
        lemma_mod_add_multiples_vanish(v, r);
        lemma_wrap_in_range(v + r);
        lemma_wrap_mod(v + r);
        assert(v % r == (v + r) % r);
    } else {
        lemma_wrap_in_range(v);
    }
}

/// Advances one coordinate by `d * PLAYER_MOVE_SPEED * dt` micro-units,
/// wrapping at the ends of the 64-bit range.
fn step_coord(x: i64, d_pos: bool, d_neg: bool, dt: u64) -> (r: i64)
    requires
        dt <= MAX_TICK_MICROS,
    ensures
        r == stepped(
            x,
            (if d_pos {
                1int
            } else {
                0int
            }) - (if d_neg {
                1int
            } else {
                0int
            }),
            dt,
        ),
{
    let delta = PLAYER_MOVE_SPEED * dt;
    let delta_i = delta as i64;
    let d = (d_pos, d_neg);
    let r = match d {
        (true, false) => x.wrapping_add(delta_i),
        (false, true) => x.wrapping_sub(delta_i),
        _ => x,
    };
    proof {
        let dir = (if d_pos {
            1int
        } else {
            0int
        }) - (if d_neg {
            1int
        } else {
            0int
        });
        let speed = PLAYER_MOVE_SPEED as int;
        if dir == 1 {
            assert(dir * speed == 100int);
            assert(dir * speed * dt == 100 * dt);
        } else if dir == -1 {
            assert(dir * speed == -100int);
            assert(dir * speed * dt == (-100) * dt);
        } else {
            assert(dir * speed == 0int);
            assert(dir * speed * dt == 0 * dt);
        }
        lemma_wrap_near_range(x + dir * speed * dt);
        if dir == 0 {
            lemma_wrap_in_range(x as int);
        }
    }
    r
}

/// Advances a position by one tick's worth of movement for one input
/// sample: velocity `(right - left, up - down)` at the fixed move speed,
/// integrated over `dt` microseconds.
pub fn step_position(pos: Position, input: PlayerInput, dt: u64) -> (r: Position)
    requires
        dt <= MAX_TICK_MICROS,
    ensures
        r == moved(pos, input, dt),
{
    let x = step_coord(pos.x, input.right, input.left, dt);
    let y = step_coord(pos.y, input.up, input.down, dt);
    Position { x, y }
}

/// Total of a sequence of elapsed times, in microseconds.
pub open spec fn total_micros(dts: Seq<u64>) -> int
    decreases dts.len(),
{
    if dts.len() == 0 {
        0
    } else {
        total_micros(dts.drop_last()) + dts.last()
    }
}

/// One coordinate after moving in direction `d` across a run of ticks.
pub open spec fn stepped_many(x: i64, d: int, dts: Seq<u64>) -> i64
    decreases dts.len(),
{
    if dts.len() == 0 {
        x
    } else {
        stepped(stepped_many(x, d, dts.drop_last()), d, dts.last())
    }
}

/// Tick granularity does not matter: integrating a time span tick by tick
/// advances a coordinate exactly as integrating the whole span at once,
/// however the span was split.
pub proof fn lemma_tick_granularity(x: i64, d: int, dts: Seq<u64>)
    ensures
        stepped_many(x, d, dts) == wrap_i64(x + d * PLAYER_MOVE_SPEED * total_micros(dts)),
    decreases dts.len(),
{
    let speed = PLAYER_MOVE_SPEED as int;
    if dts.len() == 0 {
        lemma_wrap_in_range(x as int);
    } else {
        let front = dts.drop_last();
        lemma_tick_granularity(x, d, front);
        lemma_wrap_add(x + d * speed * total_micros(front), d * speed * dts.last());
        lemma_mul_is_distributive_add(d * speed, total_micros(front), dts.last() as int);
        assert(d * speed * total_micros(front) + d * speed * dts.last() == d * speed * (
        total_micros(front) + dts.last()));
    }
}

/// A total of elapsed times is never negative.
pub proof fn lemma_total_micros_nonneg(dts: Seq<u64>)
    ensures
        total_micros(dts) >= 0,
    decreases dts.len(),
{
    if dts.len() > 0 {
        lemma_total_micros_nonneg(dts.drop_last());
    }
}

/// Movement to the right for a total of `t` microseconds advances the x
/// coordinate by exactly `PLAYER_MOVE_SPEED * t` micro-units, independent
/// of how the span was divided into ticks, as long as the end stays
/// representable.
pub proof fn lemma_movement_exact(x: i64, dts: Seq<u64>)
    requires
        x + PLAYER_MOVE_SPEED * total_micros(dts) <= i64::MAX,
    ensures
        stepped_many(x, 1, dts) == x + PLAYER_MOVE_SPEED * total_micros(dts),
{
    lemma_total_micros_nonneg(dts);
    lemma_tick_granularity(x, 1, dts);
    lemma_wrap_in_range(x + PLAYER_MOVE_SPEED * total_micros(dts));
}

} // verus!
