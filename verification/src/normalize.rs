//! The orthonormal scale of the transform: every coefficient of a length-`n` transform is
//! multiplied by the square root of `2 / n`.

use vstd::prelude::*;
use crate::fixed::{clamp_i64, lemma_round_div_nearest, round_div, round_div_exec};

verus! {

/// Fixed-point units in a scale factor of one: a factor carries thirty-two fractional bits.
pub const FACTOR_ONE: u64 = 0x1_0000_0000;

/// Two, in units of the square of a factor unit: `2 * FACTOR_ONE * FACTOR_ONE`.
pub const FACTOR_RADICAND: u128 = 0x2_0000_0000_0000_0000;

/// `f` is the square root of `2 / n` in factor units, rounded down: the largest integer
/// whose square times `n` does not exceed `FACTOR_RADICAND`.
pub open spec fn is_norm_factor(f: int, n: int) -> bool {
    &&& 0 <= f
    &&& f * f * n <= FACTOR_RADICAND
    &&& FACTOR_RADICAND < (f + 1) * (f + 1) * n
}

/// The scale factor of a transform of length `n`.
pub open spec fn norm_factor(n: int) -> int {
    choose|f: int| is_norm_factor(f, n)
}

/// A sample multiplied by a scale factor, rounded to the nearest sample unit and held to
/// the range of a sample.
pub open spec fn scale_sample(v: int, f: int) -> int {
    clamp_i64(round_div(v * f, FACTOR_ONE as int))
}

/// A plane brought to the orthonormal scale: each sample multiplied by the factor of the
/// plane's own length.
pub open spec fn normalized(raw: Seq<i64>) -> Seq<i64> {
    Seq::new(raw.len(), |i: int| scale_sample(raw[i] as int, norm_factor(raw.len() as int)) as i64)
}

/// Squaring keeps the order of non-negative integers.
proof fn lemma_square_monotonic(a: int, b: int)
    requires
        0 <= a <= b,
    ensures
        a * a <= b * b,
{
    assert(a * a <= b * b) by (nonlinear_arith)
        requires
            0 <= a <= b,
    ;
}

/// A length has at most one scale factor.
pub proof fn lemma_norm_factor_unique(f1: int, f2: int, n: int)
    requires
        n >= 1,
        is_norm_factor(f1, n),
        is_norm_factor(f2, n),
    ensures
        f1 == f2,
{
    if f1 < f2 {
        lemma_square_monotonic(f1 + 1, f2);
        assert((f1 + 1) * (f1 + 1) * n <= f2 * f2 * n) by (nonlinear_arith)
            requires
                (f1 + 1) * (f1 + 1) <= f2 * f2,
                n >= 1,
        ;
    } else if f2 < f1 {
        lemma_square_monotonic(f2 + 1, f1);
        assert((f2 + 1) * (f2 + 1) * n <= f1 * f1 * n) by (nonlinear_arith)
            requires
                (f2 + 1) * (f2 + 1) <= f1 * f1,
                n >= 1,
        ;
    }
}

/// Upward search for a scale factor from a candidate whose square is not too large.
proof fn lemma_norm_factor_search(f: int, n: int)
    requires
        n >= 1,
        0 <= f,
        f * f * n <= FACTOR_RADICAND,
    ensures
        exists|g: int| is_norm_factor(g, n),
    decreases 0x2_0000_0000 - f,
{
    if FACTOR_RADICAND < (f + 1) * (f + 1) * n {
        assert(is_norm_factor(f, n));
    } else {
        assert(f + 1 < 0x2_0000_0000) by (nonlinear_arith)
            requires
                n >= 1,
                0 <= f,
                (f + 1) * (f + 1) * n <= 0x2_0000_0000_0000_0000,
        ;
        lemma_norm_factor_search(f + 1, n);
    }
}

/// Every length of at least one has a scale factor.
pub proof fn lemma_norm_factor_exists(n: int)
    requires
        n >= 1,
    ensures
        is_norm_factor(norm_factor(n), n),
{
    assert(0 * 0 * n == 0) by (nonlinear_arith);
    lemma_norm_factor_search(0, n);
}

/// Range of the scale factor for lengths up to `2^32`.
proof fn lemma_norm_factor_range(f: int, n: int)
    requires
        1 <= n <= 0x1_0000_0000,
        is_norm_factor(f, n),
    ensures
        92681 <= f < 0x2_0000_0000,
        92681 * (f * n) <= FACTOR_RADICAND,
{
    assert(f < 0x2_0000_0000) by (nonlinear_arith)
        requires
            n >= 1,
            0 <= f,
            f * f * n <= 0x2_0000_0000_0000_0000,
    ;
    assert(92681 <= f) by (nonlinear_arith)
        requires
            1 <= n <= 0x1_0000_0000,
            0 <= f,
            0x2_0000_0000_0000_0000 < (f + 1) * (f + 1) * n,
    ;
    assert(92681 * (f * n) <= f * f * n) by (nonlinear_arith)
        requires
            92681 <= f,
            n >= 1,
    ;
}

/// Normalisation self-consistency on the first coefficient. The first raw coefficient of a
/// constant plane of `n` samples `c` is their sum, and the raw inverse of a plane with only
/// a first coefficient `x` is `x / 2` everywhere. So let `x` be the sum `n * c` at the
/// orthonormal scale, `h` its half to the nearest sample unit, and `r` that half at the
/// orthonormal scale again: for a plane of at most `2^32` samples of at most 256 levels,
/// `r` is `c` to within 512 sample units, which is 1/128 of a level.
pub proof fn lemma_constant_plane_scale(n: int, c: int, x: int, h: int, r: int)
    requires
        1 <= n <= 0x1_0000_0000,
        -0x100_0000 <= c <= 0x100_0000,
        x == scale_sample(n * c, norm_factor(n)),
        -1 <= 2 * h - x <= 1,
        r == scale_sample(h, norm_factor(n)),
    ensures
        -512 <= r - c <= 512,
{
    let f: int = norm_factor(n);
    let one: int = 0x1_0000_0000;
    let two: int = 0x2_0000_0000_0000_0000;
    lemma_norm_factor_exists(n);
    lemma_norm_factor_range(f, n);
    let span: int = f * n;
    assert(0 <= span && 92681 * span <= two);
    // the forward product and its rounding
    let a: int = (n * c) * f;
    assert(a == c * span) by (nonlinear_arith)
        requires
            a == (n * c) * f,
            span == f * n,
    ;
    assert(-0x100_0000 * span <= c * span <= 0x100_0000 * span) by (nonlinear_arith)
        requires
            -0x100_0000 <= c <= 0x100_0000,
            0 <= span,
    ;
    let xq: int = round_div(a, one);
    lemma_round_div_nearest(a, one);
    let alpha: int = a - xq * one;
    assert(x == xq);
    // the half and the inverse product
    let b: int = h * f;
    assert(-0x400_0000_0000 <= h <= 0x400_0000_0000);
    assert(-0x400_0000_0000 * f <= h * f <= 0x400_0000_0000 * f) by (nonlinear_arith)
        requires
            -0x400_0000_0000 <= h <= 0x400_0000_0000,
            0 <= f,
    ;
    let rq: int = round_div(b, one);
    lemma_round_div_nearest(b, one);
    let beta: int = b - rq * one;
    assert(r == rq);
    // what the factor's own rounding leaves
    let delta: int = 2 * h - x;
    let gamma: int = two - f * f * n;
    assert(0 <= gamma);
    assert(gamma < 2 * span + n) by (nonlinear_arith)
        requires
            gamma == two - f * f * n,
            two < (f + 1) * (f + 1) * n,
            span == f * n,
    ;
    // two to the 65th times the error, written out
    assert(two * r == 2 * one * b - 2 * one * beta) by (nonlinear_arith)
        requires
            beta == b - r * one,
            one == 0x1_0000_0000,
            two == 0x2_0000_0000_0000_0000,
    ;
    assert(2 * one * b == one * f * x + one * f * delta) by (nonlinear_arith)
        requires
            b == h * f,
            delta == 2 * h - x,
    ;
    assert(one * f * x == f * a - f * alpha) by (nonlinear_arith)
        requires
            alpha == a - x * one,
    ;
    assert(f * a == c * two - c * gamma) by (nonlinear_arith)
        requires
            a == (n * c) * f,
            gamma == two - f * f * n,
    ;
    let err: int = two * (r - c);
    assert(err == -(c * gamma) - f * alpha + one * f * delta - 2 * one * beta) by (nonlinear_arith)
        requires
            err == two * (r - c),
            two * r == 2 * one * b - 2 * one * beta,
            2 * one * b == one * f * x + one * f * delta,
            one * f * x == f * a - f * alpha,
            f * a == c * two - c * gamma,
    ;
    // each part bounded
    assert(-0x100_0000 * gamma <= c * gamma <= 0x100_0000 * gamma) by (nonlinear_arith)
        requires
            -0x100_0000 <= c <= 0x100_0000,
            0 <= gamma,
    ;
    assert(-0x8000_0000 * f <= f * alpha <= 0x8000_0000 * f) by (nonlinear_arith)
        requires
            -0x8000_0000 <= alpha <= 0x8000_0000,
            0 <= f,
    ;
    assert(-(one * f) <= one * f * delta <= one * f) by (nonlinear_arith)
        requires
            -1 <= delta <= 1,
            0 <= f,
            0 < one,
    ;
    assert(one * f == 0x1_0000_0000 * f) by (nonlinear_arith)
        requires
            one == 0x1_0000_0000,
    ;
    assert(-512 * two <= err <= 512 * two);
    assert(-512 <= r - c <= 512) by (nonlinear_arith)
        requires
            err == two * (r - c),
            two == 0x2_0000_0000_0000_0000,
            -512 * two <= err <= 512 * two,
    ;
}

/// The integer square root of `q / n` is the scale factor of `n`, where `q` is the
/// radicand divided by `n` and rounded down.
proof fn lemma_factor_from_root(f: int, q: int, n: int)
    requires
        n >= 1,
        0 <= f,
        q == FACTOR_RADICAND as int / n,
        f * f <= q < (f + 1) * (f + 1),
    ensures
        is_norm_factor(f, n),
{
    let radicand: int = FACTOR_RADICAND as int;
    vstd::arithmetic::div_mod::lemma_fundamental_div_mod(radicand, n);
    assert(f * f * n <= q * n) by (nonlinear_arith)
        requires
            f * f <= q,
            n >= 1,
    ;
    assert((q + 1) * n <= (f + 1) * (f + 1) * n) by (nonlinear_arith)
        requires
            q + 1 <= (f + 1) * (f + 1),
            n >= 1,
    ;
    assert(n * q == q * n && (q + 1) * n == q * n + n) by (nonlinear_arith);
}

/// Computes the scale factor of a transform of length `n`.
pub fn normalization_factor(n: usize) -> (f: u64)
    requires
        n >= 1,
    ensures
        f == norm_factor(n as int),
        is_norm_factor(f as int, n as int),
        f < 0x2_0000_0000,
{
    let q: u128 = FACTOR_RADICAND / (n as u128);
    let mut lo: u128 = 0;
    let mut hi: u128 = 0x2_0000_0000;
    assert(hi * hi > 0x2_0000_0000_0000_0000) by (nonlinear_arith)
        requires
            hi == 0x2_0000_0000,
    ;
    while hi - lo > 1
        invariant
            lo < hi <= 0x2_0000_0000,
            lo * lo <= q < hi * hi,
        decreases hi - lo,
    {
        let mid: u128 = lo + (hi - lo) / 2;
        assert(mid * mid <= 0x2_0000_0000 * 0x2_0000_0000) by (nonlinear_arith)
            requires
                0 <= mid <= 0x2_0000_0000,
        ;
        if mid * mid <= q {
            lo = mid;
        } else {
            hi = mid;
        }
    }
    proof {
        lemma_factor_from_root(lo as int, q as int, n as int);
        let chosen: int = norm_factor(n as int);
        lemma_norm_factor_unique(lo as int, chosen, n as int);
    }
    lo as u64
}

/// Computes `scale_sample` for a factor below two.
pub fn scale_sample_exec(v: i64, f: u64) -> (out: i64)
    requires
        f < 0x2_0000_0000,
    ensures
        out == scale_sample(v as int, f as int),
{
    assert(-0x1_0000_0000_0000_0000_0000_0000 <= (v as int) * (f as int)
        <= 0x1_0000_0000_0000_0000_0000_0000) by (nonlinear_arith)
        requires
            -0x8000_0000_0000_0000 <= v as int <= 0x8000_0000_0000_0000,
            0 <= f as int <= 0x2_0000_0000,
    ;
    let product: i128 = (v as i128) * (f as i128);
    let q: i128 = round_div_exec(product, 0x1_0000_0000);
    if q < i64::MIN as i128 {
        i64::MIN
    } else if q > i64::MAX as i128 {
        i64::MAX
    } else {
        q as i64
    }
}

/// Brings a plane of raw transform output to the orthonormal scale.
pub fn normalize(raw: &Vec<i64>) -> (out: Vec<i64>)
    requires
        raw.len() >= 1,
    ensures
        out@ == normalized(raw@),
{
    let n: usize = raw.len();
    let f: u64 = normalization_factor(n);
    let mut out: Vec<i64> = Vec::with_capacity(n);
    let mut i: usize = 0;
    while i < n
        invariant
            i <= n,
            n == raw.len(),
            f == norm_factor(n as int),
            f < 0x2_0000_0000,
            out.len() == i,
            forall|k: int| 0 <= k < i ==> out[k] == scale_sample(raw[k] as int, f as int),
        decreases n - i,
    {
        out.push(scale_sample_exec(raw[i], f));
        i += 1;
    }
    assert(out@ =~= normalized(raw@));
    out
}

} // verus!
