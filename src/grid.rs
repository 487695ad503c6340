use vstd::prelude::*;

use crate::util::{is_power_of_two, power_of_two, wrap_index};

verus! {

/// The number of cells of a `width` by `height` field, when both dimensions are
/// powers of two and the count fits in a `usize`; `None` otherwise.
pub fn field_len(width: usize, height: usize) -> (r: Option<usize>)
    ensures
        r == (if power_of_two(width as nat) && power_of_two(height as nat) && width * height
            <= usize::MAX {
            Some((width * height) as usize)
        } else {
            None::<usize>
        }),
{
    if is_power_of_two(width) && is_power_of_two(height) {
        width.checked_mul(height)
    } else {
        None
    }
}

/// The flat index of the cell at shifted integer coordinates `(xs, ys)` on a
/// `width` by `height` torus, rows laid out one after another.
pub open spec fn cell_of(xs: nat, ys: nat, width: nat, height: nat) -> nat {
    (ys % height) * width + xs % width
}

/// Flat index of the cell at `(xs, ys)`, each coordinate reduced onto its periodic axis.
pub fn cell_index(xs: usize, ys: usize, width: usize, height: usize) -> (r: usize)
    requires
        power_of_two(width as nat),
        power_of_two(height as nat),
        width * height <= usize::MAX,
    ensures
        r == cell_of(xs as nat, ys as nat, width as nat, height as nat),
        r < width * height,
{
    let i = wrap_index(xs, width);
    let j = wrap_index(ys, height);
    assert(j * width + i < width * height) by (nonlinear_arith)
        requires
            j < height,
            i < width,
    ;
    j * width + i
}

/// The nearest-rank position for the fraction `num / den` of `len` sorted values:
/// `ceil(num * len / den)`, clamped to the last position.
pub open spec fn quantile_rank_of(len: nat, num: nat, den: nat) -> nat {
    let rank: int = (num * len + den - 1) / (den as int);
    if rank < len {
        rank as nat
    } else {
        (len - 1) as nat
    }
}

/// The rank, counted from the smallest value, at which the fraction `num / den`
/// of `len` values is read.
pub fn quantile_rank(len: usize, num: u64, den: u64) -> (r: usize)
    requires
        len > 0,
        den > 0,
        num <= den,
    ensures
        r == quantile_rank_of(len as nat, num as nat, den as nat),
        r < len,
{
    let l: u128 = len as u128;
    let n: u128 = num as u128;
    let d: u128 = den as u128;
    assert(n * l <= 0xffff_ffff_ffff_ffff * 0xffff_ffff_ffff_ffff) by (nonlinear_arith)
        requires
            n <= 0xffff_ffff_ffff_ffff,
            l <= 0xffff_ffff_ffff_ffff,
    ;
    let rank: u128 = (n * l + d - 1) / d;
    if rank < l {
        rank as usize
    } else {
        len - 1
    }
}

/// The extreme fractions read the extreme ranks: `0` the smallest value, `1` the largest.
pub proof fn lemma_quantile_rank_extremes(len: nat, den: nat)
    requires
        len > 0,
        den > 0,
    ensures
        quantile_rank_of(len, 0, den) == 0,
        quantile_rank_of(len, den, den) == len - 1,
{
    assert((den - 1) / (den as int) == 0) by {
        vstd::arithmetic::div_mod::lemma_basic_div((den - 1) as int, den as int);
    }
    assert((den * len + den - 1) / (den as int) >= len) by (nonlinear_arith)
        requires
            den > 0,
    ;
}

} // verus!
