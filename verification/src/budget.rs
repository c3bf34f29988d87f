//! How many cuts a compression rate pays for.

use crate::error::ConfigError;
use vstd::prelude::*;

verus! {

/// The bits that one channel of a `rows` by `cols` image takes: eight per
/// pixel.
pub open spec fn bits_per_channel(rows: int, cols: int) -> int {
    rows * cols * 8
}

/// The bits that one cut takes: a sign per row, a sign per column, and a
/// weight of 32 bits.
pub open spec fn bits_per_cut(rows: int, cols: int) -> int {
    rows + cols + 32
}

/// The number of cuts that fit the share `num / den` of a channel's bits,
/// rounded down.
pub open spec fn budget_of(rows: int, cols: int, num: int, den: int) -> int {
    (num * bits_per_channel(rows, cols)) / (den * bits_per_cut(rows, cols))
}

/// The number of cuts for a channel of `rows` by `cols` pixels at the
/// compression rate `rate_num / rate_den`. A rate with a zero denominator
/// is refused, and so is a count that does not fit `usize`.
pub fn cut_budget(rows: u32, cols: u32, rate_num: u32, rate_den: u32) -> (res: Result<
    usize,
    ConfigError,
>)
    ensures
        match res {
            Ok(count) => rate_den > 0 && count as int == budget_of(
                rows as int,
                cols as int,
                rate_num as int,
                rate_den as int,
            ),
            Err(ConfigError::BadRate) => rate_den == 0,
            Err(ConfigError::BudgetTooLarge) => rate_den > 0 && budget_of(
                rows as int,
                cols as int,
                rate_num as int,
                rate_den as int,
            ) > usize::MAX,
            Err(_) => false,
        },
{
    if rate_den == 0 {
        return Err(ConfigError::BadRate);
    }
    assert(rows * cols <= 0xffff_ffff * 0xffff_ffff) by (nonlinear_arith)
        requires
            rows <= 0xffff_ffff,
            cols <= 0xffff_ffff,
    ;
    let area: u128 = (rows as u128) * (cols as u128);
    let channel: u128 = area * 8;
    assert(rate_num * (rows * cols * 8) <= 0xffff_ffff * (0xffff_ffff * 0xffff_ffff * 8))
        by (nonlinear_arith)
        requires
            rate_num <= 0xffff_ffff,
            0 <= rows * cols <= 0xffff_ffff * 0xffff_ffff,
    ;
    let paid: u128 = (rate_num as u128) * channel;
    let per_cut: u128 = (rows as u128) + (cols as u128) + 32;
    assert(0 < rate_den * (rows + cols + 32) <= 0xffff_ffff * (0xffff_ffff + 0xffff_ffff + 32))
        by (nonlinear_arith)
        requires
            0 < rate_den <= 0xffff_ffff,
            0 < rows + cols + 32 <= 0xffff_ffff + 0xffff_ffff + 32,
    ;
    let cost: u128 = (rate_den as u128) * per_cut;
    let count: u128 = paid / cost;
    if count > usize::MAX as u128 {
        Err(ConfigError::BudgetTooLarge)
    } else {
        Ok(count as usize)
    }
}

} // verus!
