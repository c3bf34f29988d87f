//! Between the 256 levels of a pixel channel and the integers the engine
//! works on. One level is `unit` steps of the engine's scale, so that
//! weights finer than a level can be told apart.

use vstd::prelude::*;

verus! {

/// `x` held to the range of the 256 levels: at least 0, at most
/// `255 * unit`.
pub open spec fn clamped(x: int, unit: int) -> int {
    if x < 0 {
        0
    } else if x > 255 * unit {
        255 * unit
    } else {
        x
    }
}

/// The level nearest to `x` after clamping; halfway between two levels the
/// upper one.
pub open spec fn nearest_level(x: int, unit: int) -> int {
    (2 * clamped(x, unit) + unit) / (2 * unit)
}

/// The value that stands for a level.
pub fn from_u8(level: u8, unit: u32) -> (x: i64)
    ensures
        x as int == level as int * unit as int,
{
    assert(0 <= level as int * unit as int <= 255 * 0xffff_ffff) by (nonlinear_arith)
        requires
            0 <= level as int <= 255,
            0 <= unit as int <= 0xffff_ffff,
    ;
    (level as i64) * (unit as i64)
}

/// The level of a value: the value is clamped to the range of the levels
/// and rounded to the nearest one. No level is nearer to the clamped value
/// than the one returned.
pub fn to_u8(x: i64, unit: u32) -> (level: u8)
    requires
        unit > 0,
    ensures
        level as int == nearest_level(x as int, unit as int),
        -(unit as int) < 2 * (level as int * unit as int - clamped(x as int, unit as int)) <= unit as int,
{
    let top: i64 = 255 * (unit as i64);
    let c: i64 = if x < 0 { 0 } else if x > top { top } else { x };
    let doubled: i64 = 2 * c + (unit as i64);
    let step: i64 = 2 * (unit as i64);
    let q: i64 = doubled / step;
    proof {
        let d = doubled as int;
        let s = step as int;
        assert(0 <= q <= 255 && q * s <= d < q * s + s) by (nonlinear_arith)
            requires
                q == d / s,
                s > 0,
                0 <= d <= 255 * s + s / 2,
                s % 2 == 0,
        ;
        assert(q * s == 2 * (q * (unit as int))) by (nonlinear_arith)
            requires
                s == 2 * (unit as int),
        ;
    }
    q as u8
}

/// A level survives the way to a value and back.
pub proof fn lemma_level_round_trip(level: int, unit: int)
    requires
        0 <= level <= 255,
        unit > 0,
    ensures
        nearest_level(level * unit, unit) == level,
{
    let x = level * unit;
    assert(0 <= x <= 255 * unit) by (nonlinear_arith)
        requires
            x == level * unit,
            0 <= level <= 255,
            unit > 0,
    ;
    assert((2 * x + unit) / (2 * unit) == level) by (nonlinear_arith)
        requires
            x == level * unit,
            unit > 0,
    ;
}

} // verus!
