//! Lossless re-compression of derived images.
use vstd::prelude::*;

verus! {

/// The effort preset of the re-compression.
pub const OPTIMIZE_PRESET: u8 = 1;

/// What `oxipng::optimize_from_memory` returns for a PNG and the options of an
/// effort preset: the optimised bytes, or `None` when it reports an error.
pub uninterp spec fn optimized_png(data: Seq<u8>, preset: u8) -> Option<Seq<u8>>;

#[verifier::external_type_specification]
#[verifier::external_body]
pub struct ExPngError(oxipng::PngError);

/// Relies on `oxipng::Options::from_preset` and `oxipng::optimize_from_memory`:
/// the optimised PNG depends on the input bytes and the preset alone (the
/// preset's options set no timeout and the crate is built without threads),
/// and so does whether it fails.
#[verifier::external_body]
fn oxipng_optimize(data: &[u8], preset: u8) -> (r: Result<Vec<u8>, oxipng::PngError>)
    ensures
        match r {
            Ok(v) => optimized_png(data@, preset) == Some(v@),
            Err(_) => optimized_png(data@, preset) is None,
        },
{
    oxipng::optimize_from_memory(data, &oxipng::Options::from_preset(preset))
}

/// Why an image could not be derived.
#[derive(Debug, PartialEq, Eq)]
pub enum ImageError {
    /// The re-compressor rejected the image bytes.
    Optimize,
}

/// Re-compresses a PNG losslessly at the fixed effort preset; fails exactly
/// when the re-compressor rejects the bytes.
pub fn optimize_png(data: &[u8]) -> (r: Result<Vec<u8>, ImageError>)
    ensures
        match r {
            Ok(v) => optimized_png(data@, OPTIMIZE_PRESET) == Some(v@),
            Err(_) => optimized_png(data@, OPTIMIZE_PRESET) is None,
        },
{
    match oxipng_optimize(data, OPTIMIZE_PRESET) {
        Ok(v) => Ok(v),
        Err(_) => Err(ImageError::Optimize),
    }
}

} // verus!
