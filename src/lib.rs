//! Perceptual color reduction and animated indexed-color encoding for frame
//! batches, with a frame-major voxel tensor on the side.
//!
//! Colors are handled in a fixed-point version of the OKLab space; the palette
//! is built by median cut and frames are mapped to it by error diffusion or a
//! blue-noise threshold. Encoding into the GIF container goes through the `gif`
//! crate.

use vstd::prelude::*;

pub mod tensor;
pub mod gif_encoder;
pub mod color;
pub mod palette;
pub mod dither;
pub mod blue_noise;
pub mod pipeline;

verus! {

/// The failures that the pipeline reports.
#[derive(Debug, Clone, Copy, PartialEq, Eq, Structural)]
pub enum ProcessorError {
    QuantizationError,
    EncodingError,
    InvalidInput,
    MemoryError,
    TensorError,
}

impl ProcessorError {
    /// A short human-readable description.
    pub fn message(&self) -> (r: String) {
        match self {
            ProcessorError::QuantizationError => "Quantization error".to_string(),
            ProcessorError::EncodingError => "Encoding error".to_string(),
            ProcessorError::InvalidInput => "Invalid input".to_string(),
            ProcessorError::MemoryError => "Memory error".to_string(),
            ProcessorError::TensorError => "Tensor error".to_string(),
        }
    }
}

/// Number of bytes taken by `frame_count` RGBA frames of `width` x `height`.
pub open spec fn buffer_size_of(width: int, height: int, frame_count: int) -> int {
    width * height * 4 * frame_count
}

/// Required buffer size for a batch of RGBA frames.
pub fn calculate_buffer_size(width: u32, height: u32, frame_count: u32) -> (r: u32)
    requires
        buffer_size_of(width as int, height as int, frame_count as int) <= u32::MAX,
    ensures
        r as int == buffer_size_of(width as int, height as int, frame_count as int),
{
    let total: u128 = mul3_wide(width, height, frame_count) * 4;
    proof {
        let (w, h, n) = (width as int, height as int, frame_count as int);
        assert(w * h * n * 4 == w * h * 4 * n) by (nonlinear_arith);
    }
    total as u32
}

/// `a * b * c` computed without overflow.
pub(crate) fn mul3_wide(a: u32, b: u32, c: u32) -> (r: u128)
    ensures
        r as int == a as int * b as int * c as int,
        r as int <= u32::MAX as int * u32::MAX as int * u32::MAX as int,
{
    proof { lemma_mul_le(a as int, b as int, u32::MAX as int, u32::MAX as int); }
    let ab: u64 = (a as u64) * (b as u64);
    proof { lemma_mul_le(ab as int, c as int, u32::MAX as int * u32::MAX as int, u32::MAX as int); }
    (ab as u128) * (c as u128)
}

/// Products of bounded non-negative factors are bounded.
pub proof fn lemma_mul_le(a: int, b: int, x: int, y: int)
    requires
        0 <= a <= x, 0 <= b <= y,
    ensures
        0 <= a * b <= x * y,
{
    assert(0 <= a * b <= x * y) by (nonlinear_arith)
        requires 0 <= a <= x, 0 <= b <= y;
}

/// Whether `buffer` holds exactly `expected_size` bytes.
pub fn validate_buffer(buffer: Vec<u8>, expected_size: u32) -> (r: bool)
    ensures
        r == (buffer@.len() == expected_size as int),
{
    buffer.len() == expected_size as usize
}

} // verus!
