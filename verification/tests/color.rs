use image_dct::color::to_rgb;
use image_dct::fixed::{clamp_byte_exec, round_div_exec, SAMPLE_ONE};
use image_dct::image_to_dct::YCbCr;

fn exact(level: u8) -> i64 {
    level as i64 * SAMPLE_ONE
}

#[test]
fn round_div_rounds_to_nearest() {
    assert_eq!(round_div_exec(7, 3), 2);
    assert_eq!(round_div_exec(8, 3), 3);
    assert_eq!(round_div_exec(-7, 3), -2);
    assert_eq!(round_div_exec(-8, 3), -3);
    assert_eq!(round_div_exec(0, 1000), 0);
    assert_eq!(round_div_exec(499, 1000), 0);
    assert_eq!(round_div_exec(-499, 1000), 0);
}

#[test]
fn round_div_sends_ties_away_from_zero() {
    assert_eq!(round_div_exec(5, 10), 1);
    assert_eq!(round_div_exec(-5, 10), -1);
    assert_eq!(round_div_exec(7, 2), 4);
    assert_eq!(round_div_exec(-7, 2), -4);
    assert_eq!(round_div_exec(255500, 1000), 256);
}

#[test]
fn clamp_byte_holds_the_byte_range() {
    assert_eq!(clamp_byte_exec(-1), 0);
    assert_eq!(clamp_byte_exec(0), 0);
    assert_eq!(clamp_byte_exec(200), 200);
    assert_eq!(clamp_byte_exec(255), 255);
    assert_eq!(clamp_byte_exec(256), 255);
    assert_eq!(clamp_byte_exec(i128::MAX), 255);
    assert_eq!(clamp_byte_exec(i128::MIN), 0);
}

#[test]
fn luma_chroma_of_primaries() {
    assert_eq!(YCbCr::new(&[255, 0, 0]).pixel, [76, 85, 255]);
    assert_eq!(YCbCr::new(&[0, 255, 0]).pixel, [150, 44, 21]);
    assert_eq!(YCbCr::new(&[0, 0, 255]).pixel, [29, 255, 107]);
    assert_eq!(YCbCr::new(&[255, 255, 255]).pixel, [255, 128, 128]);
    assert_eq!(YCbCr::new(&[0, 0, 0]).pixel, [0, 128, 128]);
}

#[test]
fn luma_chroma_of_mixed_pixels() {
    assert_eq!(YCbCr::new(&[128, 64, 32]).pixel, [79, 101, 163]);
    assert_eq!(YCbCr::new(&[10, 20, 30]).pixel, [18, 135, 122]);
    assert_eq!(YCbCr::new(&[255, 255, 0]).pixel, [226, 1, 149]);
}

#[test]
fn luma_tie_rounds_up() {
    // 0.587 * 36 + 0.114 * 12 is exactly 22.5
    assert_eq!(YCbCr::new(&[0, 36, 12]).pixel[0], 23);
}

#[test]
fn chroma_saturates_at_the_top() {
    // both chroma values are exactly 255.5 before rounding
    assert_eq!(YCbCr::new(&[0, 0, 255]).get_cb(), 255);
    assert_eq!(YCbCr::new(&[255, 0, 0]).get_cr(), 255);
}

#[test]
fn chroma_getters_pick_their_channel() {
    let triple = YCbCr { pixel: [1, 2, 3] };
    assert_eq!(triple.get_cb(), 2);
    assert_eq!(triple.get_cr(), 3);
}

#[test]
fn rgb_of_neutral_chroma_is_grey() {
    assert_eq!(to_rgb(exact(0), 128, 128), [0, 0, 0]);
    assert_eq!(to_rgb(exact(100), 128, 128), [100, 100, 100]);
    assert_eq!(to_rgb(exact(255), 128, 128), [255, 255, 255]);
}

#[test]
fn rgb_of_primaries() {
    assert_eq!(to_rgb(exact(76), 85, 255), [254, 0, 0]);
    assert_eq!(to_rgb(exact(150), 44, 21), [0, 255, 1]);
    assert_eq!(to_rgb(exact(29), 255, 107), [0, 0, 254]);
    assert_eq!(to_rgb(exact(79), 101, 163), [128, 63, 31]);
}

#[test]
fn rgb_rounds_half_levels_away_from_zero() {
    assert_eq!(to_rgb(32768, 128, 128), [1, 1, 1]);
    assert_eq!(to_rgb(32767, 128, 128), [0, 0, 0]);
    assert_eq!(to_rgb(254 * 65536 + 32768, 128, 128), [255, 255, 255]);
    assert_eq!(to_rgb(254 * 65536 + 32767, 128, 128), [254, 254, 254]);
}

#[test]
fn rgb_saturates() {
    assert_eq!(to_rgb(i64::MAX, 0, 0), [255, 255, 255]);
    assert_eq!(to_rgb(i64::MIN, 255, 255), [0, 0, 0]);
    assert_eq!(to_rgb(-32768, 128, 128), [0, 0, 0]);
    assert_eq!(to_rgb(exact(100), 0, 255), [255, 53, 0]);
    assert_eq!(to_rgb(exact(100), 255, 0), [0, 148, 255]);
}

#[test]
fn color_round_trip_is_within_one_level() {
    let mut r: u32 = 0;
    while r < 256 {
        let mut g: u32 = 0;
        while g < 256 {
            let mut b: u32 = 0;
            while b < 256 {
                let p = [r as u8, g as u8, b as u8];
                let t = YCbCr::new(&p);
                let q = to_rgb(exact(t.pixel[0]), t.get_cb(), t.get_cr());
                for c in 0..3 {
                    let d = (p[c] as i32 - q[c] as i32).abs();
                    assert!(d <= 1, "pixel {:?} came back as {:?}", p, q);
                }
                b += 3;
            }
            g += 3;
        }
        r += 3;
    }
}

#[test]
fn half_level_luma_error_stays_within_two_levels() {
    let mut r: u32 = 0;
    while r < 256 {
        let mut g: u32 = 0;
        while g < 256 {
            let mut b: u32 = 0;
            while b < 256 {
                let p = [r as u8, g as u8, b as u8];
                let t = YCbCr::new(&p);
                for slip in [-32768i64, 32768] {
                    let q = to_rgb(exact(t.pixel[0]) + slip, t.get_cb(), t.get_cr());
                    for c in 0..3 {
                        let d = (p[c] as i32 - q[c] as i32).abs();
                        assert!(d <= 2, "pixel {:?} came back as {:?}", p, q);
                    }
                }
                b += 5;
            }
            g += 5;
        }
        r += 5;
    }
}

#[test]
fn conversion_agrees_with_floating_point_away_from_ties() {
    let mut r: u32 = 0;
    while r < 256 {
        let mut g: u32 = 0;
        while g < 256 {
            let mut b: u32 = 0;
            while b < 256 {
                let t = YCbCr::new(&[r as u8, g as u8, b as u8]);
                let (rf, gf, bf) = (r as f64, g as f64, b as f64);
                if (299 * r + 587 * g + 114 * b) % 1000 != 500 {
                    let y = (0.299 * rf + 0.587 * gf + 0.114 * bf).round() as u8;
                    assert_eq!(t.pixel[0], y);
                }
                if (128000 + 500 * b + 831 * r + 669 * g) % 1000 != 500 {
                    let cb = (-0.169 * rf - 0.331 * gf + 0.5 * bf + 128.0).round() as u8;
                    assert_eq!(t.get_cb(), cb);
                }
                if (128000 + 500 * r + 581 * g + 919 * b) % 1000 != 500 {
                    let cr = (0.5 * rf - 0.419 * gf - 0.081 * bf + 128.0).round() as u8;
                    assert_eq!(t.get_cr(), cr);
                }
                b += 3;
            }
            g += 3;
        }
        r += 3;
    }
}
