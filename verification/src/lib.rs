//! Round-trip pipeline for a whole-image discrete cosine transform of the luma channel.
//!
//! A colour raster is split into a luma plane and a plane of luma/chroma triples, the
//! caller's transform output is brought to the orthonormal scale, and the recovered luma
//! is joined with the stored chroma into a raster again. Sample values are fixed-point
//! integers with sixteen fractional bits, so every step is exact integer arithmetic.

pub mod fixed;
pub mod color;
pub mod normalize;
pub mod raster;
pub mod image_to_dct;
