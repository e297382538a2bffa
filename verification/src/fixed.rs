//! Fixed-point samples and exact rounding.

use vstd::prelude::*;
use vstd::arithmetic::div_mod::lemma_fundamental_div_mod;

verus! {

/// Fixed-point units in one luma level: a sample carries sixteen fractional bits.
pub const SAMPLE_ONE: i64 = 65536;

/// Largest magnitude of a numerator that `round_div_exec` takes.
pub const ROUND_NUM_LIMIT: i128 = 0x1000_0000_0000_0000_0000_0000_0000;

/// Largest denominator that `round_div_exec` takes.
pub const ROUND_DEN_LIMIT: i128 = 0x1_0000_0000_0000_0000;

/// The integer nearest to `num / den`; a tie goes away from zero.
pub open spec fn round_div(num: int, den: int) -> int
    recommends
        den > 0,
{
    if num >= 0 {
        (2 * num + den) / (2 * den)
    } else {
        -((2 * (-num) + den) / (2 * den))
    }
}

/// `v` held to the range of a byte.
pub open spec fn clamp_byte(v: int) -> int {
    if v < 0 {
        0
    } else if v > 255 {
        255
    } else {
        v
    }
}

/// `v` held to the range of an `i64`.
pub open spec fn clamp_i64(v: int) -> int {
    if v < i64::MIN {
        i64::MIN as int
    } else if v > i64::MAX {
        i64::MAX as int
    } else {
        v
    }
}

/// The sample that stands for the whole luma level `level`.
pub open spec fn sample_of_level(level: int) -> int {
    level * 65536
}

/// `round_div` is within half a unit of the exact quotient: twice the remainder it leaves
/// is at most `den` in magnitude, and reaches `den` only on the side away from zero.
pub proof fn lemma_round_div_nearest(num: int, den: int)
    requires
        den > 0,
    ensures
        num >= 0 ==> -den <= 2 * (num - round_div(num, den) * den) < den,
        num < 0 ==> -den < 2 * (num - round_div(num, den) * den) <= den,
{
    if num >= 0 {
        let a: int = 2 * num + den;
        let b: int = 2 * den;
        lemma_fundamental_div_mod(a, b);
        assert(b * (a / b) == 2 * ((a / b) * den)) by (nonlinear_arith)
            requires
                b == 2 * den,
        ;
    } else {
        let a: int = 2 * (-num) + den;
        let b: int = 2 * den;
        lemma_fundamental_div_mod(a, b);
        assert(b * (a / b) == 2 * ((a / b) * den)) by (nonlinear_arith)
            requires
                b == 2 * den,
        ;
        assert((-(a / b)) * den == -((a / b) * den)) by (nonlinear_arith);
    }
}

/// Any integer within half a unit of `num / den`, on the side that ties go to, is
/// `round_div(num, den)`.
pub proof fn lemma_round_div_unique(num: int, den: int, q: int)
    requires
        den > 0,
        num >= 0 ==> -den <= 2 * (num - q * den) < den,
        num < 0 ==> -den < 2 * (num - q * den) <= den,
    ensures
        q == round_div(num, den),
{
    let r: int = round_div(num, den);
    lemma_round_div_nearest(num, den);
    assert(q == r) by (nonlinear_arith)
        requires
            den > 0,
            -2 * den < 2 * (num - q * den) - 2 * (num - r * den) < 2 * den,
    ;
}

/// Computes `round_div` on machine integers.
pub fn round_div_exec(num: i128, den: i128) -> (q: i128)
    requires
        0 < den <= ROUND_DEN_LIMIT,
        -ROUND_NUM_LIMIT <= num <= ROUND_NUM_LIMIT,
    ensures
        q == round_div(num as int, den as int),
{
    if num >= 0 {
        (2 * num + den) / (2 * den)
    } else {
        -((2 * (-num) + den) / (2 * den))
    }
}

/// Computes `clamp_byte` on a machine integer.
pub fn clamp_byte_exec(v: i128) -> (b: u8)
    ensures
        b == clamp_byte(v as int),
{
    if v < 0 {
        0
    } else if v > 255 {
        255
    } else {
        v as u8
    }
}

} // verus!
