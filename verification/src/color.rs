//! The colour model: RGB to luma and chroma and back, in exact decimal arithmetic.

use vstd::prelude::*;
use vstd::arithmetic::div_mod::lemma_fundamental_div_mod_converse;
use crate::fixed::{
    clamp_byte, clamp_byte_exec, lemma_round_div_nearest, lemma_round_div_unique, round_div,
    round_div_exec, sample_of_level,
};

verus! {

/// Luma of an RGB triple: `0.299 r + 0.587 g + 0.114 b`, rounded to the nearest level.
pub open spec fn luma_of(r: int, g: int, b: int) -> int {
    clamp_byte(round_div(299 * r + 587 * g + 114 * b, 1000))
}

/// Blue-difference chroma: `-0.169 r - 0.331 g + 0.5 b + 128`, rounded and held to a byte.
pub open spec fn cb_of(r: int, g: int, b: int) -> int {
    clamp_byte(round_div(-169 * r - 331 * g + 500 * b + 128000, 1000))
}

/// Red-difference chroma: `0.5 r - 0.419 g - 0.081 b + 128`, rounded and held to a byte.
pub open spec fn cr_of(r: int, g: int, b: int) -> int {
    clamp_byte(round_div(500 * r - 419 * g - 81 * b + 128000, 1000))
}

/// Distance of a chroma value from the neutral 128, in fixed-point sample units.
pub open spec fn chroma_offset(c: int) -> int {
    65536 * (c - 128)
}

/// Red channel from a fixed-point luma sample and red-difference chroma:
/// `luma + 1.402 (cr - 128)`, rounded and held to a byte.
pub open spec fn red_of(luma: int, cr: int) -> int {
    clamp_byte(round_div(1000 * luma + 1402 * chroma_offset(cr), 65_536_000))
}

/// Green channel: `luma - 0.34414 (cb - 128) - 0.71414 (cr - 128)`, rounded and held to a
/// byte.
pub open spec fn green_of(luma: int, cb: int, cr: int) -> int {
    clamp_byte(
        round_div(
            100000 * luma - 34414 * chroma_offset(cb) - 71414 * chroma_offset(cr),
            6_553_600_000,
        ),
    )
}

/// Blue channel: `luma + 1.772 (cb - 128)`, rounded and held to a byte.
pub open spec fn blue_of(luma: int, cb: int) -> int {
    clamp_byte(round_div(1000 * luma + 1772 * chroma_offset(cb), 65_536_000))
}

/// The RGB pixel of a fixed-point luma sample and a chroma pair. A value outside the byte
/// range saturates.
pub fn to_rgb(luma: i64, cb: u8, cr: u8) -> (rgb: [u8; 3])
    ensures
        rgb[0] == red_of(luma as int, cr as int),
        rgb[1] == green_of(luma as int, cb as int, cr as int),
        rgb[2] == blue_of(luma as int, cb as int),
{
    let l: i128 = luma as i128;
    let db: i128 = 65536 * (cb as i128 - 128);
    let dr: i128 = 65536 * (cr as i128 - 128);
    let r_num: i128 = 1000 * l + 1402 * dr;
    let g_num: i128 = 100000 * l - 34414 * db - 71414 * dr;
    let b_num: i128 = 1000 * l + 1772 * db;
    let r: u8 = clamp_byte_exec(round_div_exec(r_num, 65_536_000));
    let g: u8 = clamp_byte_exec(round_div_exec(g_num, 6_553_600_000));
    let b: u8 = clamp_byte_exec(round_div_exec(b_num, 65_536_000));
    [r, g, b]
}

/// What rounding leaves of the luma: the exact weighted sum, in thousandths of a level,
/// less the rounded luma.
spec fn luma_residue(r: int, g: int, b: int) -> int {
    299 * r + 587 * g + 114 * b - 1000 * luma_of(r, g, b)
}

/// What rounding leaves of the blue-difference chroma, in thousandths of a level.
spec fn cb_residue(r: int, g: int, b: int) -> int {
    -169 * r - 331 * g + 500 * b + 128000 - 1000 * cb_of(r, g, b)
}

/// What rounding leaves of the red-difference chroma, in thousandths of a level.
spec fn cr_residue(r: int, g: int, b: int) -> int {
    500 * r - 419 * g - 81 * b + 128000 - 1000 * cr_of(r, g, b)
}

/// The rounded luma of a pixel is a byte as it stands and lies within half a level of the
/// exact weighted sum.
proof fn lemma_luma_bounds(r: int, g: int, b: int)
    requires
        0 <= r <= 255,
        0 <= g <= 255,
        0 <= b <= 255,
    ensures
        0 <= luma_of(r, g, b) <= 255,
        -500 <= luma_residue(r, g, b) < 500,
{
    lemma_round_div_nearest(299 * r + 587 * g + 114 * b, 1000);
}

/// The blue-difference chroma of a pixel lies within half a level of the exact value,
/// except for the one pixel whose exact value rounds up to 256 and is held at 255.
proof fn lemma_cb_bounds(r: int, g: int, b: int)
    requires
        0 <= r <= 255,
        0 <= g <= 255,
        0 <= b <= 255,
    ensures
        1 <= cb_of(r, g, b) <= 255,
        -500 <= cb_residue(r, g, b) < 500 || (r == 0 && g == 0 && b == 255),
        r == 0 && g == 0 && b == 255 ==> cb_of(r, g, b) == 255 && luma_of(r, g, b) == 29
            && cr_of(r, g, b) == 107,
{
    lemma_round_div_nearest(-169 * r - 331 * g + 500 * b + 128000, 1000);
    if r == 0 && g == 0 && b == 255 {
        lemma_round_div_unique(255500, 1000, 256);
        lemma_round_div_unique(29070, 1000, 29);
        lemma_round_div_unique(107345, 1000, 107);
    }
}

/// The red-difference chroma of a pixel lies within half a level of the exact value,
/// except for the one pixel whose exact value rounds up to 256 and is held at 255.
proof fn lemma_cr_bounds(r: int, g: int, b: int)
    requires
        0 <= r <= 255,
        0 <= g <= 255,
        0 <= b <= 255,
    ensures
        1 <= cr_of(r, g, b) <= 255,
        -500 <= cr_residue(r, g, b) < 500 || (r == 255 && g == 0 && b == 0),
        r == 255 && g == 0 && b == 0 ==> cr_of(r, g, b) == 255 && luma_of(r, g, b) == 76
            && cb_of(r, g, b) == 85,
{
    lemma_round_div_nearest(500 * r - 419 * g - 81 * b + 128000, 1000);
    if r == 255 && g == 0 && b == 0 {
        lemma_round_div_unique(255500, 1000, 256);
        lemma_round_div_unique(76245, 1000, 76);
        lemma_round_div_unique(84905, 1000, 85);
    }
}

/// Red before its last rounding, in thousandths of a level, from whole luma and chroma.
spec fn red_milli(y: int, cr: int) -> int {
    1000 * y + 1402 * (cr - 128)
}

/// Green before its last rounding, in hundred-thousandths of a level.
spec fn green_micro(y: int, cb: int, cr: int) -> int {
    100000 * y - 34414 * (cb - 128) - 71414 * (cr - 128)
}

/// Blue before its last rounding, in thousandths of a level.
spec fn blue_milli(y: int, cb: int) -> int {
    1000 * y + 1772 * (cb - 128)
}

/// Red computed from a pixel's own luma and chroma is, before its last rounding, within
/// 1.313 levels of the pixel's red.
proof fn lemma_red_drift(r: int, g: int, b: int)
    requires
        0 <= r <= 255,
        0 <= g <= 255,
        0 <= b <= 255,
    ensures
        -1313 <= red_milli(luma_of(r, g, b), cr_of(r, g, b)) - 1000 * r <= 1313,
{
    lemma_luma_bounds(r, g, b);
    lemma_cr_bounds(r, g, b);
    let y: int = luma_of(r, g, b);
    let cr: int = cr_of(r, g, b);
    let e1: int = luma_residue(r, g, b);
    let e3: int = cr_residue(r, g, b);
    let m: int = red_milli(y, cr);
    if r == 255 && g == 0 && b == 0 {
        assert(m == 254054);
    } else {
        assert(1000 * m == 1000000 * r + 438 * (b - g) - 1000 * e1 - 1402 * e3);
        assert(-111690 <= 438 * (b - g) <= 111690);
        assert(-500000 <= 1000 * e1 <= 500000);
        assert(-701000 <= 1402 * e3 <= 701000);
    }
}

/// Green computed from a pixel's own luma and chroma is, before its last rounding, within
/// 1.09 levels of the pixel's green.
proof fn lemma_green_drift(r: int, g: int, b: int)
    requires
        0 <= r <= 255,
        0 <= g <= 255,
        0 <= b <= 255,
    ensures
        -109000 <= green_micro(luma_of(r, g, b), cb_of(r, g, b), cr_of(r, g, b)) - 100000 * g
            <= 109000,
{
    lemma_luma_bounds(r, g, b);
    lemma_cb_bounds(r, g, b);
    lemma_cr_bounds(r, g, b);
    let y: int = luma_of(r, g, b);
    let cb: int = cb_of(r, g, b);
    let cr: int = cr_of(r, g, b);
    let e1: int = luma_residue(r, g, b);
    let e2: int = cb_residue(r, g, b);
    let e3: int = cr_residue(r, g, b);
    let m: int = green_micro(y, cb, cr);
    if r == 255 && g == 0 && b == 0 {
        assert(m == 10224);
    } else if r == 0 && g == 0 && b == 255 {
        assert(m == 29116);
    } else {
        assert(1000 * m == 100000000 * g + 8966 * r + 13500 * g - 22466 * b - 100000 * e1 + 34414
            * e2 + 71414 * e3);
        assert(-5728830 <= 8966 * r + 13500 * g - 22466 * b <= 5728830);
        assert(-50000000 <= 100000 * e1 <= 50000000);
        assert(-17207000 <= 34414 * e2 <= 17207000);
        assert(-35707000 <= 71414 * e3 <= 35707000);
    }
}

/// No pixel with little red and much green leaves both its luma and its blue-difference
/// chroma at the upper end of their rounding at once; likewise with much red and little
/// green at the lower end.
proof fn lemma_blue_extremes(r: u32, g: u32, b: u32)
    by (bit_vector)
    requires
        r <= 255,
        g <= 255,
        b <= 255,
    ensures
        r <= 11 && g >= 244 ==> !(500 <= (299 * r + 587 * g + 114 * b) % 1000 <= 505 && 500 <= (
        128000 + 500 * b + 831 * r + 669 * g) % 1000 <= 503),
        g <= 11 && r >= 244 ==> !(495 <= (299 * r + 587 * g + 114 * b) % 1000 <= 499 && 497 <= (
        128000 + 500 * b + 831 * r + 669 * g) % 1000 <= 499),
{
}

/// Remainder of a number written as a multiple of a thousand plus a signed residue.
proof fn lemma_residue_mod(n: int, q: int, e: int)
    requires
        n == 1000 * q + e,
        -1000 < e < 1000,
    ensures
        e >= 0 ==> n % 1000 == e,
        e < 0 ==> n % 1000 == 1000 + e,
{
    if e >= 0 {
        lemma_fundamental_div_mod_converse(n, 1000, q, e);
    } else {
        lemma_fundamental_div_mod_converse(n, 1000, q - 1, 1000 + e);
    }
}

/// Arithmetic behind `lemma_blue_drift`, on a luma `y` and chroma `cb` given by their
/// residues `e1` and `e2`.
proof fn lemma_blue_drift_arith(r: int, g: int, b: int, y: int, cb: int, e1: int, e2: int)
    requires
        0 <= r <= 255,
        0 <= g <= 255,
        0 <= b <= 255,
        0 <= y <= 255,
        0 <= cb <= 255,
        e1 == 299 * r + 587 * g + 114 * b - 1000 * y,
        e2 == -169 * r - 331 * g + 500 * b + 128000 - 1000 * cb,
        -500 <= e1 < 500,
        -500 <= e2 < 500,
    ensures
        -1500 < blue_milli(y, cb) - 1000 * b < 1500,
{
    let m: int = blue_milli(y, cb);
    let d: int = 468 * (g - r) - 1000 * e1 - 1772 * e2;
    assert(1000 * m == 1000000 * b + d);
    let ny: int = 299 * r + 587 * g + 114 * b;
    let nc: int = 128000 + 500 * b + 831 * r + 669 * g;
    if d >= 1500000 {
        assert(g - r >= 244 && e1 <= -495 && e2 <= -497);
        lemma_residue_mod(ny, y, e1);
        lemma_residue_mod(nc, cb + r + g, e2);
        lemma_blue_extremes(r as u32, g as u32, b as u32);
    } else if d <= -1500000 {
        assert(r - g >= 244 && e1 >= 495 && e2 >= 497);
        lemma_residue_mod(ny, y, e1);
        lemma_residue_mod(nc, cb + r + g, e2);
        lemma_blue_extremes(r as u32, g as u32, b as u32);
    }
}

/// Blue computed from a pixel's own luma and chroma is, before its last rounding, less
/// than 1.5 levels from the pixel's blue.
proof fn lemma_blue_drift(r: int, g: int, b: int)
    requires
        0 <= r <= 255,
        0 <= g <= 255,
        0 <= b <= 255,
    ensures
        -1500 < blue_milli(luma_of(r, g, b), cb_of(r, g, b)) - 1000 * b < 1500,
{
    lemma_luma_bounds(r, g, b);
    lemma_cb_bounds(r, g, b);
    if r == 0 && g == 0 && b == 255 {
        assert(blue_milli(29, 255) == 254044);
    } else {
        lemma_blue_drift_arith(
            r,
            g,
            b,
            luma_of(r, g, b),
            cb_of(r, g, b),
            luma_residue(r, g, b),
            cb_residue(r, g, b),
        );
    }
}

/// Colour model inverse law: taking a pixel to luma and chroma and back, with the luma
/// carried over exactly, moves no channel by more than one level.
pub proof fn lemma_color_round_trip(r: int, g: int, b: int)
    requires
        0 <= r <= 255,
        0 <= g <= 255,
        0 <= b <= 255,
    ensures
        -1 <= red_of(sample_of_level(luma_of(r, g, b)), cr_of(r, g, b)) - r <= 1,
        -1 <= green_of(sample_of_level(luma_of(r, g, b)), cb_of(r, g, b), cr_of(r, g, b)) - g
            <= 1,
        -1 <= blue_of(sample_of_level(luma_of(r, g, b)), cb_of(r, g, b)) - b <= 1,
{
    let y: int = luma_of(r, g, b);
    let cb: int = cb_of(r, g, b);
    let cr: int = cr_of(r, g, b);
    let luma: int = sample_of_level(y);
    let r_num: int = 1000 * luma + 1402 * chroma_offset(cr);
    let g_num: int = 100000 * luma - 34414 * chroma_offset(cb) - 71414 * chroma_offset(cr);
    let b_num: int = 1000 * luma + 1772 * chroma_offset(cb);
    let rq: int = round_div(r_num, 65_536_000);
    let gq: int = round_div(g_num, 6_553_600_000);
    let bq: int = round_div(b_num, 65_536_000);
    assert(-1 <= rq - r <= 1) by {
        lemma_round_div_nearest(r_num, 65_536_000);
        lemma_red_drift(r, g, b);
        assert(r_num == 65536 * red_milli(y, cr));
    }
    assert(-1 <= gq - g <= 1) by {
        lemma_round_div_nearest(g_num, 6_553_600_000);
        lemma_green_drift(r, g, b);
        assert(g_num == 65536 * green_micro(y, cb, cr));
    }
    assert(-1 <= bq - b <= 1) by {
        lemma_round_div_nearest(b_num, 65_536_000);
        lemma_blue_drift(r, g, b);
        assert(b_num == 65536 * blue_milli(y, cb));
    }
}

/// Reconstruction tolerance: where the recovered luma sample lies within half a level of
/// a pixel's own luma, the pixel rebuilt from it and from the pixel's chroma is within two
/// levels of the pixel on every channel.
pub proof fn lemma_reconstruction_tolerance(r: int, g: int, b: int, luma: int)
    requires
        0 <= r <= 255,
        0 <= g <= 255,
        0 <= b <= 255,
        -32768 <= luma - sample_of_level(luma_of(r, g, b)) <= 32768,
    ensures
        -2 <= red_of(luma, cr_of(r, g, b)) - r <= 2,
        -2 <= green_of(luma, cb_of(r, g, b), cr_of(r, g, b)) - g <= 2,
        -2 <= blue_of(luma, cb_of(r, g, b)) - b <= 2,
{
    let y: int = luma_of(r, g, b);
    let cb: int = cb_of(r, g, b);
    let cr: int = cr_of(r, g, b);
    let slip: int = luma - sample_of_level(y);
    let r_num: int = 1000 * luma + 1402 * chroma_offset(cr);
    let g_num: int = 100000 * luma - 34414 * chroma_offset(cb) - 71414 * chroma_offset(cr);
    let b_num: int = 1000 * luma + 1772 * chroma_offset(cb);
    let rq: int = round_div(r_num, 65_536_000);
    let gq: int = round_div(g_num, 6_553_600_000);
    let bq: int = round_div(b_num, 65_536_000);
    assert(-2 <= rq - r <= 2) by {
        lemma_round_div_nearest(r_num, 65_536_000);
        lemma_red_drift(r, g, b);
        assert(r_num == 65536 * red_milli(y, cr) + 1000 * slip);
    }
    assert(-2 <= gq - g <= 2) by {
        lemma_round_div_nearest(g_num, 6_553_600_000);
        lemma_green_drift(r, g, b);
        assert(g_num == 65536 * green_micro(y, cb, cr) + 100000 * slip);
    }
    assert(-2 <= bq - b <= 2) by {
        lemma_round_div_nearest(b_num, 65_536_000);
        lemma_blue_drift(r, g, b);
        assert(b_num == 65536 * blue_milli(y, cb) + 1000 * slip);
    }
}

} // verus!
