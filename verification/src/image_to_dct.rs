//! The pipeline object: the planes of one image, the scaling of the transform output and
//! the reconstruction of a raster from recovered luma and stored chroma.

use vstd::prelude::*;
use crate::color::{
    blue_of, cb_of, cr_of, green_of, lemma_reconstruction_tolerance, luma_of, red_of, to_rgb,
};
use crate::fixed::{clamp_byte_exec, round_div_exec, sample_of_level, SAMPLE_ONE};
use crate::normalize::{normalize, normalized};
use crate::raster::Raster;

verus! {

/// A luma/chroma triple: `pixel` is `[y, cb, cr]`.
#[derive(Debug, Clone, Copy)]
pub struct YCbCr {
    pub pixel: [u8; 3],
}

impl YCbCr {
    /// This triple is the conversion of the RGB pixel `rgb`.
    pub open spec fn converts(&self, rgb: (u8, u8, u8)) -> bool {
        &&& self.pixel[0] == luma_of(rgb.0 as int, rgb.1 as int, rgb.2 as int)
        &&& self.pixel[1] == cb_of(rgb.0 as int, rgb.1 as int, rgb.2 as int)
        &&& self.pixel[2] == cr_of(rgb.0 as int, rgb.1 as int, rgb.2 as int)
    }

    /// The RGB pixel that this triple's chroma gives with the luma sample `luma`.
    pub open spec fn rgb_with(&self, luma: i64) -> (u8, u8, u8) {
        (
            red_of(luma as int, self.pixel[2] as int) as u8,
            green_of(luma as int, self.pixel[1] as int, self.pixel[2] as int) as u8,
            blue_of(luma as int, self.pixel[1] as int) as u8,
        )
    }

    /// Converts the RGB pixel `[red, green, blue]` to luma and chroma.
    pub fn new(pixel: &[u8; 3]) -> (out: YCbCr)
        ensures
            out.converts((pixel[0], pixel[1], pixel[2])),
    {
        let r: i128 = pixel[0] as i128;
        let g: i128 = pixel[1] as i128;
        let b: i128 = pixel[2] as i128;
        let y_num: i128 = 299 * r + 587 * g + 114 * b;
        let cb_num: i128 = 128000 + 500 * b - 169 * r - 331 * g;
        let cr_num: i128 = 128000 + 500 * r - 419 * g - 81 * b;
        let y: u8 = clamp_byte_exec(round_div_exec(y_num, 1000));
        let cb: u8 = clamp_byte_exec(round_div_exec(cb_num, 1000));
        let cr: u8 = clamp_byte_exec(round_div_exec(cr_num, 1000));
        YCbCr { pixel: [y, cb, cr] }
    }

    /// The blue-difference chroma.
    pub fn get_cb(&self) -> (cb: u8)
        ensures
            cb == self.pixel[1],
    {
        self.pixel[1]
    }

    /// The red-difference chroma.
    pub fn get_cr(&self) -> (cr: u8)
        ensures
            cr == self.pixel[2],
    {
        self.pixel[2]
    }
}

/// Why a step of the pipeline was refused.
#[derive(Debug, Clone, Copy, PartialEq, Eq)]
pub enum PipelineError {
    /// The plane is empty: no transform of length zero exists.
    TransformConfig,
    /// A plane does not hold one sample for each pixel.
    ShapeMismatch,
}

/// The planes of one image. Samples are fixed-point: `SAMPLE_ONE` units to a luma level.
pub struct ImageDct {
    /// The source raster.
    pub image: Raster,
    /// The luma of each pixel, in row-major order.
    pub grayscale_vec: Vec<i64>,
    /// The luma/chroma triple of each pixel, in row-major order.
    pub ycbcr_vec: Vec<YCbCr>,
    /// The luma plane's transform at the orthonormal scale.
    pub dct_coefficents: Vec<i64>,
    /// The luma recovered by the inverse transform.
    pub reconstructed_image_vec: Vec<i64>,
}

impl ImageDct {
    /// A plane of `n` zero samples.
    pub open spec fn zero_plane(n: nat) -> Seq<i64> {
        Seq::new(n, |i: int| 0i64)
    }

    /// Every plane holds one sample for each pixel of the image.
    pub open spec fn well_formed(&self) -> bool {
        &&& self.grayscale_vec@.len() == self.image@.len()
        &&& self.ycbcr_vec@.len() == self.image@.len()
        &&& self.dct_coefficents@.len() == self.image@.len()
        &&& self.reconstructed_image_vec@.len() == self.image@.len()
    }

    /// The chroma plane holds the conversion of each pixel of the image, and the luma
    /// plane holds the luma of that conversion, at the same index.
    pub open spec fn ingested(&self) -> bool {
        &&& self.grayscale_vec@.len() == self.image@.len()
        &&& self.ycbcr_vec@.len() == self.image@.len()
        &&& forall|i: int|
            0 <= i < self.image@.len() ==> {
                &&& (#[trigger] self.ycbcr_vec@[i]).converts(self.image@[i])
                &&& self.grayscale_vec@[i] == sample_of_level(self.ycbcr_vec@[i].pixel[0] as int)
            }
    }

    /// Builds the luma and chroma planes of `image` in one pass; the coefficient and
    /// recovered planes start at zero.
    pub fn new(image: Raster) -> (out: ImageDct)
        ensures
            out.image == image,
            out.well_formed(),
            out.ingested(),
            out.dct_coefficents@ == Self::zero_plane(image@.len()),
            out.reconstructed_image_vec@ == Self::zero_plane(image@.len()),
            forall|x: int, y: int|
                0 <= x < image.spec_width() && 0 <= y < image.spec_height()
                    ==> out.grayscale_vec@[#[trigger] Raster::index_of(image.spec_width(), x, y)]
                    == sample_of_level(
                    out.ycbcr_vec@[Raster::index_of(image.spec_width(), x, y)].pixel[0] as int,
                ),
    {
        let n: usize = image.pixel_count();
        let width: u32 = image.width();
        let height: u32 = image.height();
        let mut grayscale_vec: Vec<i64> = Vec::with_capacity(n);
        let mut ycbcr_vec: Vec<YCbCr> = Vec::with_capacity(n);
        let mut y: u32 = 0;
        while y < height
            invariant
                y <= height,
                width == image.spec_width(),
                height == image.spec_height(),
                n == image@.len(),
                n == width * height,
                grayscale_vec@.len() == y * width,
                ycbcr_vec@.len() == y * width,
                forall|i: int|
                    0 <= i < y * width ==> {
                        &&& (#[trigger] ycbcr_vec@[i]).converts(image@[i])
                        &&& grayscale_vec@[i] == sample_of_level(ycbcr_vec@[i].pixel[0] as int)
                    },
            decreases height - y,
        {
            let mut x: u32 = 0;
            while x < width
                invariant
                    y < height,
                    x <= width,
                    width == image.spec_width(),
                    height == image.spec_height(),
                    n == image@.len(),
                    n == width * height,
                    grayscale_vec@.len() == y * width + x,
                    ycbcr_vec@.len() == y * width + x,
                    forall|i: int|
                        0 <= i < y * width + x ==> {
                            &&& (#[trigger] ycbcr_vec@[i]).converts(image@[i])
                            &&& grayscale_vec@[i] == sample_of_level(
                                ycbcr_vec@[i].pixel[0] as int,
                            )
                        },
                decreases width - x,
            {
                let rgb: [u8; 3] = image.pixel_at(x, y);
                let triple: YCbCr = YCbCr::new(&rgb);
                ycbcr_vec.push(triple);
                grayscale_vec.push((triple.pixel[0] as i64) * SAMPLE_ONE);
                x += 1;
            }
            assert((y + 1) * width == y * width + width) by (nonlinear_arith);
            y += 1;
        }
        assert(height * width == width * height) by (nonlinear_arith);
        let out = ImageDct {
            image,
            grayscale_vec,
            ycbcr_vec,
            dct_coefficents: vec![0i64; n],
            reconstructed_image_vec: vec![0i64; n],
        };
        assert(out.dct_coefficents@ =~= Self::zero_plane(image@.len()));
        assert(out.reconstructed_image_vec@ =~= Self::zero_plane(image@.len()));
        assert forall|x: int, y: int|
            0 <= x < image.spec_width() && 0 <= y < image.spec_height()
                implies out.grayscale_vec@[#[trigger] Raster::index_of(image.spec_width(), x, y)]
            == sample_of_level(
            out.ycbcr_vec@[Raster::index_of(image.spec_width(), x, y)].pixel[0] as int,
        ) by {
            Raster::lemma_index_in_range(image.spec_width(), image.spec_height(), x, y);
            let i = Raster::index_of(image.spec_width(), x, y);
            assert(out.ycbcr_vec@[i].converts(image@[i]));
        }
        out
    }

    /// The length of the transform: the number of luma samples. An empty plane has no
    /// transform.
    pub fn transform_len(&self) -> (out: Result<usize, PipelineError>)
        ensures
            self.grayscale_vec@.len() >= 1 ==> out == Ok::<usize, PipelineError>(
                self.grayscale_vec.len(),
            ),
            self.grayscale_vec@.len() == 0 ==> out == Err::<usize, PipelineError>(
                PipelineError::TransformConfig,
            ),
    {
        let n: usize = self.grayscale_vec.len();
        if n == 0 {
            Err(PipelineError::TransformConfig)
        } else {
            Ok(n)
        }
    }

    /// Whether a plane of raw transform output is taken: `Ok` for one sample per luma
    /// sample of a plane that is not empty, else the error that names what is wrong. An
    /// empty luma plane is reported before a wrong length.
    pub open spec fn admits(&self, raw: Seq<i64>) -> Result<(), PipelineError> {
        if self.grayscale_vec@.len() == 0 {
            Err(PipelineError::TransformConfig)
        } else if raw.len() != self.grayscale_vec@.len() {
            Err(PipelineError::ShapeMismatch)
        } else {
            Ok(())
        }
    }

    /// Completes the forward transform. `raw` is the unnormalised DCT-II of the luma
    /// plane; its samples, brought to the orthonormal scale, become the coefficient plane.
    /// On an error nothing changes.
    pub fn compute_dct(&mut self, raw: &Vec<i64>) -> (out: Result<(), PipelineError>)
        ensures
            out == old(self).admits(raw@),
            final(self).image == old(self).image,
            final(self).grayscale_vec == old(self).grayscale_vec,
            final(self).ycbcr_vec == old(self).ycbcr_vec,
            final(self).reconstructed_image_vec == old(self).reconstructed_image_vec,
            out.is_ok() ==> final(self).dct_coefficents@ == normalized(raw@),
            out.is_err() ==> final(self).dct_coefficents == old(self).dct_coefficents,
    {
        let n: usize = self.grayscale_vec.len();
        if n == 0 {
            return Err(PipelineError::TransformConfig);
        }
        if raw.len() != n {
            return Err(PipelineError::ShapeMismatch);
        }
        self.dct_coefficents = normalize(raw);
        Ok(())
    }

    /// Completes the inverse transform. `raw` is the unnormalised DCT-III of the
    /// coefficient plane; its samples, brought to the orthonormal scale, become the
    /// recovered luma plane. On an error nothing changes.
    pub fn compute_idct(&mut self, raw: &Vec<i64>) -> (out: Result<(), PipelineError>)
        ensures
            out == old(self).admits(raw@),
            final(self).image == old(self).image,
            final(self).grayscale_vec == old(self).grayscale_vec,
            final(self).ycbcr_vec == old(self).ycbcr_vec,
            final(self).dct_coefficents == old(self).dct_coefficents,
            out.is_ok() ==> final(self).reconstructed_image_vec@ == normalized(raw@),
            out.is_err() ==> final(self).reconstructed_image_vec == old(
                self,
            ).reconstructed_image_vec,
    {
        let n: usize = self.grayscale_vec.len();
        if n == 0 {
            return Err(PipelineError::TransformConfig);
        }
        if raw.len() != n {
            return Err(PipelineError::ShapeMismatch);
        }
        self.reconstructed_image_vec = normalize(raw);
        Ok(())
    }

    /// The chroma plane and the recovered luma plane each hold one sample for each pixel
    /// of the image.
    pub open spec fn reconstructible(&self) -> bool {
        &&& self.ycbcr_vec@.len() == self.image@.len()
        &&& self.reconstructed_image_vec@.len() == self.image@.len()
    }

    /// The pixels that reconstruction gives: at each index, the recovered luma joined with
    /// the stored chroma.
    pub open spec fn reconstructed_pixels(&self) -> Seq<(u8, u8, u8)> {
        Seq::new(
            self.image@.len(),
            |i: int| self.ycbcr_vec@[i].rgb_with(self.reconstructed_image_vec@[i]),
        )
    }

    /// Builds a raster of the image's dimensions from the recovered luma and the stored
    /// chroma. A plane of the wrong length is a `ShapeMismatch`. The planes stay as they
    /// are.
    pub fn reconstructe_image(&mut self) -> (out: Result<Raster, PipelineError>)
        ensures
            *final(self) == *old(self),
            out.is_ok() <==> old(self).reconstructible(),
            out matches Ok(raster) ==> {
                &&& raster.spec_width() == old(self).image.spec_width()
                &&& raster.spec_height() == old(self).image.spec_height()
                &&& raster@ == old(self).reconstructed_pixels()
            },
            out matches Err(e) ==> e == PipelineError::ShapeMismatch,
    {
        let n: usize = self.image.pixel_count();
        if self.ycbcr_vec.len() != n || self.reconstructed_image_vec.len() != n {
            return Err(PipelineError::ShapeMismatch);
        }
        let width: u32 = self.width();
        let height: u32 = self.height();
        assert(3 * width * height == 3 * (width * height)) by (nonlinear_arith);
        let mut raster: Raster = Raster::blank(width, height);
        let mut index: usize = 0;
        let mut y: u32 = 0;
        while y < height
            invariant
                y <= height,
                width == self.image.spec_width(),
                height == self.image.spec_height(),
                raster.spec_width() == width,
                raster.spec_height() == height,
                n == width * height,
                n == self.image@.len(),
                self.ycbcr_vec@.len() == n,
                self.reconstructed_image_vec@.len() == n,
                raster@.len() == n,
                index == y * width,
                forall|i: int|
                    0 <= i < index ==> raster@[i] == self.ycbcr_vec@[i].rgb_with(
                        self.reconstructed_image_vec@[i],
                    ),
            decreases height - y,
        {
            let mut x: u32 = 0;
            while x < width
                invariant
                    y < height,
                    x <= width,
                    width == self.image.spec_width(),
                    height == self.image.spec_height(),
                    raster.spec_width() == width,
                    raster.spec_height() == height,
                    n == width * height,
                    n == self.image@.len(),
                    self.ycbcr_vec@.len() == n,
                    self.reconstructed_image_vec@.len() == n,
                    raster@.len() == n,
                    index == y * width + x,
                    forall|i: int|
                        0 <= i < index ==> raster@[i] == self.ycbcr_vec@[i].rgb_with(
                            self.reconstructed_image_vec@[i],
                        ),
                decreases width - x,
            {
                proof {
                    Raster::lemma_index_in_range(width as nat, height as nat, x as int, y as int);
                }
                let luma: i64 = self.reconstructed_image_vec[index];
                let triple: YCbCr = self.ycbcr_vec[index];
                let rgb: [u8; 3] = to_rgb(luma, triple.get_cb(), triple.get_cr());
                raster.set_pixel_at(x, y, rgb);
                index += 1;
                x += 1;
            }
            assert((y + 1) * width == y * width + width) by (nonlinear_arith);
            y += 1;
        }
        assert(height * width == width * height) by (nonlinear_arith);
        assert(raster@ =~= self.reconstructed_pixels());
        Ok(raster)
    }

    /// Every channel of `p` is within `tolerance` levels of the same channel of `q`.
    pub open spec fn within_levels(p: (u8, u8, u8), q: (u8, u8, u8), tolerance: int) -> bool {
        &&& -tolerance <= p.0 - q.0 <= tolerance
        &&& -tolerance <= p.1 - q.1 <= tolerance
        &&& -tolerance <= p.2 - q.2 <= tolerance
    }

    /// Round trip: where the planes were built from the image and every recovered luma
    /// sample lies within half a level of the luma plane's sample, reconstruction gives
    /// every pixel of the image back within two levels on each channel.
    pub proof fn lemma_round_trip_within_two_levels(&self)
        requires
            self.ingested(),
            self.reconstructible(),
            forall|i: int|
                0 <= i < self.image@.len() ==> -32768 <= #[trigger] self.reconstructed_image_vec@[i]
                    - self.grayscale_vec@[i] <= 32768,
        ensures
            self.reconstructed_pixels().len() == self.image@.len(),
            forall|i: int|
                0 <= i < self.image@.len() ==> Self::within_levels(
                    #[trigger] self.reconstructed_pixels()[i],
                    self.image@[i],
                    2,
                ),
    {
        assert forall|i: int| 0 <= i < self.image@.len() implies Self::within_levels(
            #[trigger] self.reconstructed_pixels()[i],
            self.image@[i],
            2,
        ) by {
            let p = self.image@[i];
            let t = self.ycbcr_vec@[i];
            assert(t.converts(p));
            let recovered: i64 = self.reconstructed_image_vec@[i];
            lemma_reconstruction_tolerance(p.0 as int, p.1 as int, p.2 as int, recovered as int);
        }
    }

    /// Width of the source image.
    pub fn width(&self) -> (w: u32)
        ensures
            w == self.image.spec_width(),
    {
        self.image.width()
    }

    /// Height of the source image.
    pub fn height(&self) -> (h: u32)
        ensures
            h == self.image.spec_height(),
    {
        self.image.height()
    }
}

} // verus!
