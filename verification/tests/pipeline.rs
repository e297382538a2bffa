use image_dct::image_to_dct::{ImageDct, PipelineError, YCbCr};
use image_dct::raster::Raster;
use rustdct::DctPlanner;

fn raster_of(width: u32, height: u32, pixels: &[[u8; 3]]) -> Raster {
    let mut raster = Raster::new(width, height).unwrap();
    for y in 0..height {
        for x in 0..width {
            assert!(raster.put_pixel(x, y, pixels[(y * width + x) as usize]));
        }
    }
    raster
}

fn to_floats(plane: &[i64]) -> Vec<f32> {
    plane.iter().map(|s| (*s as f64 / 65536.0) as f32).collect()
}

fn to_samples(plane: &[f32]) -> Vec<i64> {
    plane.iter().map(|v| (*v as f64 * 65536.0).round() as i64).collect()
}

fn raw_dct2(plane: &[i64]) -> Vec<i64> {
    let mut buffer = to_floats(plane);
    DctPlanner::new().plan_dct2(buffer.len()).process_dct2(&mut buffer);
    to_samples(&buffer)
}

fn raw_dct3(plane: &[i64]) -> Vec<i64> {
    let mut buffer = to_floats(plane);
    DctPlanner::new().plan_dct3(buffer.len()).process_dct3(&mut buffer);
    to_samples(&buffer)
}

fn round_trip(width: u32, height: u32, pixels: &[[u8; 3]]) -> Raster {
    let mut dct = ImageDct::new(raster_of(width, height, pixels));
    let forward = raw_dct2(&dct.grayscale_vec);
    assert_eq!(dct.compute_dct(&forward), Ok(()));
    let inverse = raw_dct3(&dct.dct_coefficents);
    assert_eq!(dct.compute_idct(&inverse), Ok(()));
    dct.reconstructe_image().unwrap()
}

fn assert_within(out: &Raster, width: u32, pixels: &[[u8; 3]], tolerance: i32) {
    for (i, p) in pixels.iter().enumerate() {
        let (x, y) = (i as u32 % width, i as u32 / width);
        let q = out.get_pixel(x, y).unwrap();
        for c in 0..3 {
            let d = (p[c] as i32 - q[c] as i32).abs();
            assert!(d <= tolerance, "pixel {:?} at ({}, {}) came back as {:?}", p, x, y, q);
        }
    }
}

#[test]
fn two_by_two_round_trip() {
    let pixels = [[255, 0, 0], [0, 255, 0], [0, 0, 255], [255, 255, 255]];
    let out = round_trip(2, 2, &pixels);
    assert_eq!((out.width(), out.height()), (2, 2));
    assert_within(&out, 2, &pixels, 2);
}

#[test]
fn single_pixel_round_trip() {
    let pixels = [[128, 64, 32]];
    let out = round_trip(1, 1, &pixels);
    assert_eq!((out.width(), out.height()), (1, 1));
    assert_eq!(out.get_pixel(0, 0), Some([128, 63, 31]));
    assert_within(&out, 1, &pixels, 1);
}

#[test]
fn single_pixel_transform_scales_by_root_two() {
    let mut dct = ImageDct::new(raster_of(1, 1, &[[128, 64, 32]]));
    assert_eq!(dct.grayscale_vec, vec![79 * 65536]);
    assert_eq!(dct.compute_dct(&vec![79 * 65536]), Ok(()));
    assert_eq!(dct.dct_coefficents, vec![7321870]);
}

#[test]
fn round_trip_of_a_larger_image() {
    let (width, height) = (7u32, 5u32);
    let mut pixels = Vec::new();
    for i in 0..width * height {
        pixels.push([(i * 37 % 256) as u8, (i * 91 % 256) as u8, (255 - i * 7 % 256) as u8]);
    }
    let out = round_trip(width, height, &pixels);
    assert_eq!((out.width(), out.height()), (width, height));
    assert_within(&out, width, &pixels, 2);
}

#[test]
fn constant_plane_survives_the_transform() {
    for n in [1u32, 2, 3, 4, 8, 16, 30, 64] {
        let pixels = vec![[100u8, 100, 100]; n as usize];
        let mut dct = ImageDct::new(raster_of(n, 1, &pixels));
        assert_eq!(dct.grayscale_vec, vec![100 * 65536; n as usize]);
        let forward = raw_dct2(&dct.grayscale_vec);
        assert_eq!(dct.compute_dct(&forward), Ok(()));
        let inverse = raw_dct3(&dct.dct_coefficents);
        assert_eq!(dct.compute_idct(&inverse), Ok(()));
        for s in dct.reconstructed_image_vec.iter() {
            assert!((s - 100 * 65536).abs() <= 64, "length {}: sample {}", n, s);
        }
    }
}

#[test]
fn constant_plane_has_only_a_first_coefficient() {
    let pixels = vec![[50u8, 50, 50]; 8];
    let mut dct = ImageDct::new(raster_of(4, 2, &pixels));
    let forward = raw_dct2(&dct.grayscale_vec);
    assert_eq!(dct.compute_dct(&forward), Ok(()));
    // the first raw coefficient is the sum of the samples; the scale for eight is one half
    assert_eq!(dct.dct_coefficents[0], 8 * 50 * 65536 / 2);
    for c in dct.dct_coefficents[1..].iter() {
        assert!(c.abs() <= 64);
    }
}

#[test]
fn output_has_the_shape_of_the_input() {
    for (width, height) in [(1u32, 1u32), (1, 7), (7, 1), (5, 3), (3, 5), (16, 16)] {
        let pixels = vec![[9u8, 8, 7]; (width * height) as usize];
        let mut dct = ImageDct::new(raster_of(width, height, &pixels));
        assert_eq!((dct.width(), dct.height()), (width, height));
        let out = dct.reconstructe_image().unwrap();
        assert_eq!((out.width(), out.height()), (width, height));
    }
}

#[test]
fn planes_share_the_row_major_index() {
    let pixels = [
        [255, 0, 0],
        [0, 255, 0],
        [0, 0, 255],
        [128, 64, 32],
        [10, 20, 30],
        [255, 255, 255],
    ];
    let lumas = [76i64, 150, 29, 79, 18, 255];
    let dct = ImageDct::new(raster_of(3, 2, &pixels));
    assert_eq!(dct.grayscale_vec.len(), 6);
    assert_eq!(dct.ycbcr_vec.len(), 6);
    for y in 0..2usize {
        for x in 0..3usize {
            let i = y * 3 + x;
            assert_eq!(dct.ycbcr_vec[i].pixel, YCbCr::new(&pixels[i]).pixel);
            assert_eq!(dct.grayscale_vec[i], dct.ycbcr_vec[i].pixel[0] as i64 * 65536);
            assert_eq!(dct.grayscale_vec[i], lumas[i] * 65536);
        }
    }
}

#[test]
fn fresh_planes_are_zero() {
    let dct = ImageDct::new(raster_of(2, 2, &[[1, 2, 3]; 4]));
    assert_eq!(dct.dct_coefficents, vec![0; 4]);
    assert_eq!(dct.reconstructed_image_vec, vec![0; 4]);
    assert_eq!(dct.image.get_pixel(1, 1), Some([1, 2, 3]));
}

#[test]
fn reconstruction_joins_recovered_luma_with_stored_chroma() {
    let mut dct = ImageDct::new(raster_of(2, 1, &[[255, 0, 0], [0, 0, 255]]));
    dct.reconstructed_image_vec = vec![76 * 65536, 29 * 65536];
    let out = dct.reconstructe_image().unwrap();
    assert_eq!(out.get_pixel(0, 0), Some([254, 0, 0]));
    assert_eq!(out.get_pixel(1, 0), Some([0, 0, 254]));
    // the stored luma is not consulted
    dct.ycbcr_vec[0].pixel[0] = 0;
    let again = dct.reconstructe_image().unwrap();
    assert_eq!(again.get_pixel(0, 0), Some([254, 0, 0]));
}

#[test]
fn reconstruction_of_fresh_planes_uses_zero_luma() {
    let mut dct = ImageDct::new(raster_of(1, 1, &[[255, 255, 255]]));
    let out = dct.reconstructe_image().unwrap();
    assert_eq!(out.get_pixel(0, 0), Some([0, 0, 0]));
}

#[test]
fn transform_of_an_empty_image_is_a_configuration_error() {
    let mut dct = ImageDct::new(Raster::new(0, 0).unwrap());
    assert_eq!(dct.transform_len(), Err(PipelineError::TransformConfig));
    assert_eq!(dct.compute_dct(&Vec::new()), Err(PipelineError::TransformConfig));
    assert_eq!(dct.compute_idct(&Vec::new()), Err(PipelineError::TransformConfig));
    assert_eq!(dct.compute_dct(&vec![1, 2]), Err(PipelineError::TransformConfig));
    let out = dct.reconstructe_image().unwrap();
    assert_eq!((out.width(), out.height()), (0, 0));
}

#[test]
fn transform_length_is_the_pixel_count() {
    let dct = ImageDct::new(raster_of(3, 2, &[[0, 0, 0]; 6]));
    assert_eq!(dct.transform_len(), Ok(6));
}

#[test]
fn transform_output_of_the_wrong_length_is_a_shape_mismatch() {
    let mut dct = ImageDct::new(raster_of(2, 2, &[[5, 5, 5]; 4]));
    assert_eq!(dct.compute_dct(&vec![1, 2, 3]), Err(PipelineError::ShapeMismatch));
    assert_eq!(dct.compute_dct(&vec![1, 2, 3, 4, 5]), Err(PipelineError::ShapeMismatch));
    assert_eq!(dct.compute_idct(&Vec::new()), Err(PipelineError::ShapeMismatch));
    assert_eq!(dct.dct_coefficents, vec![0; 4]);
    assert_eq!(dct.reconstructed_image_vec, vec![0; 4]);
}

#[test]
fn transform_steps_leave_the_other_planes() {
    let mut dct = ImageDct::new(raster_of(2, 1, &[[10, 20, 30], [40, 50, 60]]));
    let luma = dct.grayscale_vec.clone();
    assert_eq!(dct.compute_dct(&vec![65536, -65536]), Ok(()));
    assert_eq!(dct.dct_coefficents, vec![65536, -65536]);
    assert_eq!(dct.reconstructed_image_vec, vec![0, 0]);
    assert_eq!(dct.compute_idct(&vec![7, 9]), Ok(()));
    assert_eq!(dct.reconstructed_image_vec, vec![7, 9]);
    assert_eq!(dct.dct_coefficents, vec![65536, -65536]);
    assert_eq!(dct.grayscale_vec, luma);
    assert_eq!(dct.ycbcr_vec[1].pixel, YCbCr::new(&[40, 50, 60]).pixel);
}

#[test]
fn reconstruction_of_misshapen_planes_is_a_shape_mismatch() {
    let mut dct = ImageDct::new(raster_of(2, 2, &[[5, 5, 5]; 4]));
    dct.reconstructed_image_vec.pop();
    assert!(matches!(dct.reconstructe_image(), Err(PipelineError::ShapeMismatch)));
    dct.reconstructed_image_vec = vec![0; 4];
    dct.ycbcr_vec.push(YCbCr { pixel: [0, 0, 0] });
    assert!(matches!(dct.reconstructe_image(), Err(PipelineError::ShapeMismatch)));
    dct.ycbcr_vec.pop();
    assert!(dct.reconstructe_image().is_ok());
}
