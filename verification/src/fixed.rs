use vstd::arithmetic::div_mod::lemma_fundamental_div_mod;
use vstd::arithmetic::div_mod::lemma_fundamental_div_mod_converse;
use vstd::prelude::*;

verus! {

/// The fixed-point one. Lengths are kept as `i64` numbers of which `UNIT`
/// make one whole: on screen one grid cell, in space one unit of length, in a
/// rotation one radian.
pub const UNIT: i64 = 65536;

/// The integer nearest to `num / den`, for a positive `den`; a tie goes away
/// from zero.
pub open spec fn round_ratio(num: int, den: int) -> int
    recommends
        den > 0,
{
    if num >= 0 {
        (2 * num + den) / (2 * den)
    } else {
        -((den - 2 * num) / (2 * den))
    }
}

/// `value` held to the range of `usize`: what is negative becomes zero, what
/// is too large becomes `usize::MAX`.
pub open spec fn to_index(value: int) -> usize {
    if value < 0 {
        0usize
    } else if value > usize::MAX {
        usize::MAX
    } else {
        value as usize
    }
}

/// The grid index nearest to the fixed-point position `raw`.
pub open spec fn cell_of(raw: int) -> usize {
    to_index(round_ratio(raw, UNIT as int))
}

/// `round_ratio(num, den)` is an integer nearest to `num / den`: it lies no
/// more than one half from the quotient. It is not on the other side of zero.
pub proof fn lemma_round_ratio_nearest(num: int, den: int)
    requires
        den > 0,
    ensures
        -den <= 2 * num - 2 * (round_ratio(num, den) * den) <= den,
        num >= 0 ==> round_ratio(num, den) >= 0,
        num <= 0 ==> round_ratio(num, den) <= 0,
{
    let mag = if num >= 0 { num } else { -num };
    let q = (2 * mag + den) / (2 * den);
    lemma_fundamental_div_mod(2 * mag + den, 2 * den);
    assert(2 * mag + den == (2 * den) * q + (2 * mag + den) % (2 * den));
    assert((2 * den) * q == 2 * (q * den)) by (nonlinear_arith);
    assert(q >= 0) by (nonlinear_arith)
        requires
            2 * mag + den >= 0,
            den > 0,
            q == (2 * mag + den) / (2 * den),
    ;
    if num < 0 {
        assert((-q) * den == -(q * den)) by (nonlinear_arith);
    }
    if num == 0 {
        lemma_fundamental_div_mod_converse(den, 2 * den, 0, den);
    }
}

/// The integer nearest to `num / den`, ties away from zero.
pub fn round_div(num: i128, den: i128) -> (nearest: i128)
    requires
        den > 0,
        num > i128::MIN,
    ensures
        nearest == round_ratio(num as int, den as int),
{
    let mag: i128 = if num < 0 {
        -num
    } else {
        num
    };
    let whole: i128 = mag / den;
    let rest: i128 = mag % den;
    proof {
        lemma_fundamental_div_mod(mag as int, den as int);
        assert(den * whole == whole * den) by (nonlinear_arith);
        assert(whole <= mag) by (nonlinear_arith)
            requires
                mag == whole * den + rest,
                rest >= 0,
                den >= 1,
                whole >= 0,
        ;
    }
    if rest >= den - rest {
        proof {
            assert(whole < mag || mag == 0) by (nonlinear_arith)
                requires
                    mag == whole * den + rest,
                    rest >= den - rest,
                    0 <= rest < den,
                    den >= 1,
                    whole >= 0,
            ;
            assert(2 * mag + den == (whole + 1) * (2 * den) + (2 * rest - den)) by (nonlinear_arith)
                requires
                    mag == whole * den + rest,
            ;
            lemma_fundamental_div_mod_converse(
                2 * mag + den,
                2 * den,
                whole + 1,
                2 * rest - den,
            );
        }
        if num < 0 {
            -(whole + 1)
        } else {
            whole + 1
        }
    } else {
        proof {
            assert(2 * mag + den == whole * (2 * den) + (2 * rest + den)) by (nonlinear_arith)
                requires
                    mag == whole * den + rest,
            ;
            lemma_fundamental_div_mod_converse(2 * mag + den, 2 * den, whole as int, 2 * rest + den);
        }
        if num < 0 {
            -whole
        } else {
            whole
        }
    }
}

/// `value` held to the range of `usize`.
pub fn clamp_index(value: i128) -> (index: usize)
    ensures
        index == to_index(value as int),
{
    if value < 0 {
        0
    } else if value > usize::MAX as i128 {
        usize::MAX
    } else {
        value as usize
    }
}

/// The grid index nearest to the fixed-point position `raw`: `raw / UNIT`
/// rounded, ties away from zero, and nothing below zero.
pub fn cell_index(raw: i64) -> (index: usize)
    ensures
        index == cell_of(raw as int),
{
    clamp_index(round_div(raw as i128, UNIT as i128))
}

} // verus!
