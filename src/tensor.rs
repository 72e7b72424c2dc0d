//! Frame-major voxel tensors: packing, frame extraction, voxel addressing and
//! a clamped-edge 3-D convolution.

use vstd::prelude::*;
use crate::{ProcessorError, mul3_wide, lemma_mul_le};
use vstd::arithmetic::div_mod::{lemma_multiply_divide_lt, lemma_fundamental_div_mod, lemma_mod_multiples_vanish};

verus! {

/// Fixed-point unit of convolution weights: a weight of `KERNEL_UNIT` is 1.
pub const KERNEL_UNIT: i64 = 65536;

/// Dimensions of a voxel tensor: `frames` slices of `width` x `height` RGBA samples.
#[derive(Debug, Clone, Copy, PartialEq, Eq, Structural)]
pub struct TensorShape {
    pub width: u32,
    pub height: u32,
    pub frames: u32,
}

impl TensorShape {
    /// Number of voxels.
    pub open spec fn voxels(&self) -> int {
        self.width * self.height * self.frames
    }

    /// Number of pixels in one frame.
    pub open spec fn pixels_per_frame(&self) -> int {
        self.width * self.height
    }

    /// Number of bytes of one frame.
    pub open spec fn frame_bytes(&self) -> int {
        self.pixels_per_frame() * 4
    }

    /// Offset of the first byte of frame `z`.
    pub open spec fn frame_start(&self, z: int) -> int {
        z * self.frame_bytes()
    }

    /// Number of bytes of the whole tensor.
    pub open spec fn byte_len(&self) -> int {
        self.voxels() * 4
    }

    pub fn new(width: u32, height: u32, frames: u32) -> (r: TensorShape)
        ensures
            r == (TensorShape { width, height, frames }),
    {
        TensorShape { width, height, frames }
    }

    /// A cube of side `size`.
    pub fn cube(size: u32) -> (r: TensorShape)
        ensures
            r == (TensorShape { width: size, height: size, frames: size }),
    {
        TensorShape { width: size, height: size, frames: size }
    }

    pub fn total_elements(&self) -> (r: usize)
        requires
            self.voxels() <= usize::MAX,
        ensures
            r as int == self.voxels(),
    {
        mul3_wide(self.width, self.height, self.frames) as usize
    }

    pub fn frame_size(&self) -> (r: usize)
        requires
            self.pixels_per_frame() <= usize::MAX,
        ensures
            r as int == self.pixels_per_frame(),
    {
        mul3_wide(self.width, self.height, 1) as usize
    }
}

/// Byte offset of voxel `(x, y, z)`: frame-major, then row-major, four bytes a voxel.
pub open spec fn voxel_offset(x: int, y: int, z: int, shape: TensorShape) -> int {
    ((z * shape.height + y) * shape.width + x) * 4
}

/// Byte offset of voxel `(x, y, z)` in a tensor of the given shape.
pub fn voxel_to_index(x: u32, y: u32, z: u32, shape: TensorShape) -> (r: usize)
    requires
        voxel_offset(x as int, y as int, z as int, shape) <= usize::MAX,
    ensures
        r as int == voxel_offset(x as int, y as int, z as int, shape),
{
    let plane: u128 = mul3_wide(z, shape.height, 1) + y as u128;
    proof {
        lemma_mul_le(z as int, shape.height as int, u32::MAX as int, u32::MAX as int);
        lemma_mul_le(plane as int, shape.width as int, 0x1_0000_0000_0000_0000, u32::MAX as int);
    }
    let pixel: u128 = plane * (shape.width as u128) + x as u128;
    (pixel * 4) as usize
}

/// Copies RGBA frames laid out frame after frame into a tensor of `shape`.
pub fn build_tensor(frames_rgba: &[u8], shape: TensorShape) -> (r: Result<Vec<u8>, ProcessorError>)
    ensures
        r is Ok <==> frames_rgba@.len() == shape.byte_len(),
        r matches Ok(v) ==> v@ == frames_rgba@,
        r matches Err(e) ==> e == ProcessorError::InvalidInput,
{
    let expected: u128 = mul3_wide(shape.width, shape.height, shape.frames) * 4;
    if frames_rgba.len() as u128 != expected {
        return Err(ProcessorError::InvalidInput);
    }
    Ok(vstd::slice::slice_to_vec(frames_rgba))
}

/// The bytes of frame `frame_index`.
pub fn extract_frame(tensor: &[u8], shape: TensorShape, frame_index: u32) -> (r: Result<Vec<u8>, ProcessorError>)
    ensures
        frame_index >= shape.frames ==> r == Err::<Vec<u8>, ProcessorError>(ProcessorError::InvalidInput),
        frame_index < shape.frames && shape.frame_start(frame_index + 1) > tensor@.len()
            ==> r == Err::<Vec<u8>, ProcessorError>(ProcessorError::TensorError),
        r is Ok <==> frame_index < shape.frames && shape.frame_start(frame_index + 1) <= tensor@.len(),
        r matches Ok(v) ==> v@ == tensor@.subrange(
            shape.frame_start(frame_index as int),
            shape.frame_start(frame_index + 1),
        ),
{
    if frame_index >= shape.frames {
        return Err(ProcessorError::InvalidInput);
    }
    let frame_bytes: u128 = mul3_wide(shape.width, shape.height, 1) * 4;
    proof {
        lemma_mul_le(shape.width as int, shape.height as int, u32::MAX as int, u32::MAX as int);
        assert(frame_bytes as int == shape.pixels_per_frame() * 4);
        lemma_mul_le(frame_index as int, frame_bytes as int, u32::MAX as int, 0x4_0000_0000_0000_0000);
    }
    let start: u128 = (frame_index as u128) * frame_bytes;
    let end: u128 = start + frame_bytes;
    proof {
        let fb = shape.frame_bytes();
        assert((frame_index as int + 1) * fb == frame_index as int * fb + fb) by (nonlinear_arith);
        assert(0 <= frame_index as int * fb) by (nonlinear_arith) requires fb >= 0;
    }
    if end > tensor.len() as u128 {
        return Err(ProcessorError::TensorError);
    }
    let part = vstd::slice::slice_subrange(tensor, start as usize, end as usize);
    Ok(vstd::slice::slice_to_vec(part))
}

/// Side of the cube that frames are resampled to when they are not already that size.
pub const CUBE_SIDE: u32 = 128;

/// Bytes of one resampled frame.
pub const CUBE_FRAME_BYTES: usize = 65536;

/// The frames laid end to end.
pub open spec fn concat_frames(frames: Seq<Vec<u8>>, n: int) -> Seq<u8>
    decreases n,
{
    if n <= 0 {
        Seq::empty()
    } else {
        concat_frames(frames, n - 1) + frames[n - 1]@
    }
}

proof fn lemma_concat_monotone(frames: Seq<Vec<u8>>, a: int, b: int)
    requires
        0 <= a <= b <= frames.len(),
    ensures
        concat_frames(frames, a).len() <= concat_frames(frames, b).len(),
    decreases b - a,
{
    if a < b {
        lemma_concat_monotone(frames, a, b - 1);
    }
}

/// Byte `j` of a `w` x `h` frame resampled to `CUBE_SIDE` x `CUBE_SIDE` by
/// nearest neighbour: output pixel `(x, y)` reads source pixel
/// `(x * w / 128, y * h / 128)`, clamped to the frame, or zeros when the
/// frame's buffer is too short to hold it.
pub open spec fn resampled_byte(frame: Seq<u8>, w: int, h: int, j: int) -> u8 {
    let p = j / 4;
    let x = p % 128;
    let y = p / 128;
    let sx = if x * w / 128 < w - 1 { x * w / 128 } else { w - 1 };
    let sy = if y * h / 128 < h - 1 { y * h / 128 } else { h - 1 };
    let i = (sy * w + sx) * 4;
    if i + 3 < frame.len() { frame[i + j % 4] } else { 0 }
}

fn resampled_value(frame: &Vec<u8>, w: u32, h: u32, j: usize) -> (r: u8)
    requires
        w > 0, h > 0, j < CUBE_FRAME_BYTES,
    ensures
        r == resampled_byte(frame@, w as int, h as int, j as int),
{
    let p = (j / 4) as u64;
    let x = p % 128;
    let y = p / 128;
    proof {
        lemma_mul_le(x as int, w as int, 127, u32::MAX as int);
        lemma_mul_le(y as int, h as int, 127, u32::MAX as int);
    }
    let fx = x * (w as u64) / 128;
    let fy = y * (h as u64) / 128;
    let sx: u64 = if fx < (w as u64) - 1 { fx } else { (w as u64) - 1 };
    let sy: u64 = if fy < (h as u64) - 1 { fy } else { (h as u64) - 1 };
    proof {
        lemma_mul_le(sy as int, w as int, u32::MAX as int, u32::MAX as int);
    }
    let i: u128 = ((sy as u128) * (w as u128) + sx as u128) * 4;
    if i + 3 < frame.len() as u128 {
        frame[(i as usize) + j % 4]
    } else {
        0
    }
}

/// Builds a voxel tensor from frames: frames of `CUBE_SIDE` x `CUBE_SIDE`
/// are copied as they are; frames of another size are resampled to it by
/// nearest neighbour, one `CUBE_FRAME_BYTES` slice per frame.
pub fn build_tensor_from_frames(frames: &Vec<Vec<u8>>, width: u32, height: u32) -> (r: Result<Vec<u8>, ProcessorError>)
    ensures
        width == 0 || height == 0 ==> r == Err::<Vec<u8>, ProcessorError>(ProcessorError::InvalidInput),
        r matches Err(e) ==> e == ProcessorError::InvalidInput,
        width > 0 && height > 0 && !(width == CUBE_SIDE && height == CUBE_SIDE)
            && frames@.len() * CUBE_FRAME_BYTES <= usize::MAX ==> r is Ok,
        width == CUBE_SIDE && height == CUBE_SIDE && concat_frames(frames@, frames@.len() as int).len() <= usize::MAX
            ==> r is Ok,
        width == CUBE_SIDE && height == CUBE_SIDE ==> (r matches Ok(t) ==> t@ == concat_frames(frames@, frames@.len() as int)),
        !(width == CUBE_SIDE && height == CUBE_SIDE) ==> (r matches Ok(t) ==> {
            &&& t@.len() == frames@.len() * CUBE_FRAME_BYTES
            &&& forall|j: int| 0 <= j < t@.len() ==> #[trigger] t@[j] == resampled_byte(
                frames@[j / CUBE_FRAME_BYTES as int]@, width as int, height as int, j % CUBE_FRAME_BYTES as int)
        }),
{
    if width == 0 || height == 0 {
        return Err(ProcessorError::InvalidInput);
    }
    let mut tensor: Vec<u8> = Vec::new();
    if width == CUBE_SIDE && height == CUBE_SIDE {
        let mut i: usize = 0;
        while i < frames.len()
            invariant
                width == CUBE_SIDE && height == CUBE_SIDE,
                i <= frames@.len(),
                tensor@ == concat_frames(frames@, i as int),
            decreases frames@.len() - i,
        {
            proof { lemma_concat_monotone(frames@, i as int + 1, frames@.len() as int); }
            if tensor.len() > usize::MAX - frames[i].len() {
                return Err(ProcessorError::InvalidInput);
            }
            tensor.extend_from_slice(frames[i].as_slice());
            assert(tensor@ =~= concat_frames(frames@, i as int) + frames@[i as int]@);
            i = i + 1;
        }
        return Ok(tensor);
    }
    if (frames.len() as u128) * (CUBE_FRAME_BYTES as u128) > usize::MAX as u128 {
        return Err(ProcessorError::InvalidInput);
    }
    let total = frames.len() * CUBE_FRAME_BYTES;
    let mut j: usize = 0;
    while j < total
        invariant
            width > 0, height > 0,
            total == frames@.len() * CUBE_FRAME_BYTES,
            j <= total,
            tensor@.len() == j,
            forall|q: int| 0 <= q < j ==> #[trigger] tensor@[q] == resampled_byte(
                frames@[q / CUBE_FRAME_BYTES as int]@, width as int, height as int, q % CUBE_FRAME_BYTES as int),
        decreases total - j,
    {
        let f = j / CUBE_FRAME_BYTES;
        proof {
            vstd::arithmetic::div_mod::lemma_fundamental_div_mod(j as int, CUBE_FRAME_BYTES as int);
            vstd::arithmetic::div_mod::lemma_mod_pos_bound(j as int, CUBE_FRAME_BYTES as int);
            assert(f < frames@.len()) by (nonlinear_arith)
                requires f == j / 65536, j < frames@.len() * 65536, j == 65536 * (j / 65536) + j % 65536,
                    j % 65536 >= 0;
        }
        let v = resampled_value(&frames[f], width, height, j % CUBE_FRAME_BYTES);
        tensor.push(v);
        j = j + 1;
    }
    Ok(tensor)
}

/// Clamps `v` into `0..n`.
pub open spec fn clamp_coord(v: int, n: int) -> int {
    if v < 0 {
        0
    } else if v >= n {
        n - 1
    } else {
        v
    }
}

/// The sample that tap `t` of a `k`-wide cubic kernel reads for output byte `i`:
/// taps run over x fastest, then y, then z, centred on the output voxel, and
/// coordinates outside the tensor are clamped to its edge.
pub open spec fn tap_sample(tensor: Seq<u8>, shape: TensorShape, k: int, i: int, t: int) -> int {
    let w = shape.width as int;
    let h = shape.height as int;
    let p = i / 4;
    let half = k / 2;
    let sx = clamp_coord(p % w + t % k - half, w);
    let sy = clamp_coord((p / w) % h + (t / k) % k - half, h);
    let sz = clamp_coord((p / w) / h + (t / k) / k - half, shape.frames as int);
    tensor[voxel_offset(sx, sy, sz, shape) + i % 4] as int
}

/// Weighted sum of the first `n` taps for output byte `i`.
pub open spec fn window_sum(tensor: Seq<u8>, shape: TensorShape, kernel: Seq<i32>, k: int, i: int, n: int) -> int
    decreases n,
{
    if n <= 0 {
        0
    } else {
        window_sum(tensor, shape, kernel, k, i, n - 1) + kernel[n - 1] * tap_sample(tensor, shape, k, i, n - 1)
    }
}

/// A fixed-point accumulator brought back to a byte: negative sums give 0,
/// sums of 255 or more give 255, the rest is rounded down.
pub open spec fn sample_of(acc: int) -> u8 {
    if acc <= 0 {
        0
    } else if acc >= 255 * (KERNEL_UNIT as int) {
        255
    } else {
        (acc / (KERNEL_UNIT as int)) as u8
    }
}

/// Output byte `i` of the convolution of `tensor` by a `k`-wide kernel.
pub open spec fn convolved_byte(tensor: Seq<u8>, shape: TensorShape, kernel: Seq<i32>, k: int, i: int) -> u8 {
    sample_of(window_sum(tensor, shape, kernel, k, i, k * k * k))
}

/// Sum of the first `n` weights.
pub open spec fn kernel_sum(kernel: Seq<i32>, n: int) -> int
    decreases n,
{
    if n <= 0 {
        0
    } else {
        kernel_sum(kernel, n - 1) + kernel[n - 1]
    }
}

/// All voxels of the tensor hold the same four channel values.
pub open spec fn is_uniform(tensor: Seq<u8>) -> bool {
    forall|j: int| 0 <= j < tensor.len() ==> #[trigger] tensor[j] == tensor[j % 4]
}

proof fn lemma_decompose(p: int, w: int, h: int, f: int)
    requires
        0 <= p < w * h * f,
        0 <= w, 0 <= h, 0 <= f,
    ensures
        w > 0, h > 0,
        0 <= p % w < w,
        0 <= (p / w) % h < h,
        0 <= (p / w) / h < f,
{
    if w <= 0 || h <= 0 {
        assert(w * h * f == 0) by (nonlinear_arith) requires w == 0 || h == 0;
    }
    assert(w * h * f == w * (h * f)) by (nonlinear_arith);
    lemma_multiply_divide_lt(p, w, h * f);
    assert(p / w >= 0) by (nonlinear_arith) requires p >= 0, w > 0;
    lemma_multiply_divide_lt(p / w, h, f);
    assert((p / w) / h >= 0) by (nonlinear_arith) requires p / w >= 0, h > 0;
}

proof fn lemma_voxel_in_range(x: int, y: int, z: int, c: int, shape: TensorShape)
    requires
        0 <= x < shape.width, 0 <= y < shape.height, 0 <= z < shape.frames, 0 <= c < 4,
    ensures
        0 <= voxel_offset(x, y, z, shape) + c < shape.byte_len(),
        (voxel_offset(x, y, z, shape) + c) % 4 == c,
{
    let w = shape.width as int;
    let h = shape.height as int;
    let f = shape.frames as int;
    assert(0 <= z * h + y <= f * h - 1) by (nonlinear_arith) requires 0 <= y < h, 0 <= z < f;
    let zy = z * h + y;
    assert(0 <= zy * w + x <= f * h * w - 1) by (nonlinear_arith) requires 0 <= x < w, 0 <= zy <= f * h - 1;
    assert(f * h * w == w * h * f) by (nonlinear_arith);
    lemma_mod_multiples_vanish(zy * w + x, c, 4);
}

proof fn lemma_window_sum_bound(tensor: Seq<u8>, shape: TensorShape, kernel: Seq<i32>, k: int, i: int, n: int)
    requires
        0 <= n <= kernel.len(),
        forall|t: int| 0 <= t < n ==> 0 <= #[trigger] tap_sample(tensor, shape, k, i, t) <= 255,
    ensures
        -n * 0x80_0000_0000 <= window_sum(tensor, shape, kernel, k, i, n) <= n * 0x80_0000_0000,
    decreases n,
{
    if n > 0 {
        lemma_window_sum_bound(tensor, shape, kernel, k, i, n - 1);
        let s = tap_sample(tensor, shape, k, i, n - 1);
        let wgt = kernel[n - 1] as int;
        assert(-0x80_0000_0000 <= wgt * s <= 0x80_0000_0000) by (nonlinear_arith)
            requires 0 <= s <= 255, -0x8000_0000 <= wgt < 0x8000_0000;
    }
}

fn clamp_index(v: i64, n: i64) -> (r: i64)
    requires
        n > 0,
    ensures
        r == clamp_coord(v as int, n as int),
{
    if v < 0 {
        0
    } else if v >= n {
        n - 1
    } else {
        v
    }
}

fn sample_from(acc: i128) -> (r: u8)
    ensures
        r == sample_of(acc as int),
{
    if acc <= 0 {
        0
    } else if acc >= 255 * (KERNEL_UNIT as i128) {
        255
    } else {
        (acc / (KERNEL_UNIT as i128)) as u8
    }
}

/// Convolves every channel of the tensor with a cubic kernel of odd width
/// `kernel_size`. Weights are fixed-point with unit `KERNEL_UNIT`, laid out
/// z-major like the tensor; sampling clamps to the tensor's edges. Each output
/// frame depends on the input alone.
pub fn convolve_3d(tensor: &[u8], shape: TensorShape, kernel: &[i32], kernel_size: u32)
    -> (r: Result<Vec<u8>, ProcessorError>)
    ensures
        r is Ok <==> kernel_size % 2 == 1 && tensor@.len() == shape.byte_len()
            && kernel@.len() >= kernel_size * kernel_size * kernel_size,
        r matches Err(e) ==> e == ProcessorError::InvalidInput,
        r matches Ok(out) ==> out@.len() == tensor@.len() && forall|i: int| 0 <= i < out@.len()
            ==> out@[i] == convolved_byte(tensor@, shape, kernel@, kernel_size as int, i),
{
    if kernel_size % 2 == 0 {
        return Err(ProcessorError::InvalidInput);
    }
    let expected: u128 = mul3_wide(shape.width, shape.height, shape.frames) * 4;
    if tensor.len() as u128 != expected {
        return Err(ProcessorError::InvalidInput);
    }
    let taps: u128 = mul3_wide(kernel_size, kernel_size, kernel_size);
    if (kernel.len() as u128) < taps {
        return Err(ProcessorError::InvalidInput);
    }
    let ghost k = kernel_size as int;
    let ks = kernel_size as usize;
    let n_taps = taps as usize;
    let half = (kernel_size / 2) as i64;
    let w = shape.width as usize;
    let h = shape.height as usize;
    let len = tensor.len();
    let mut out: Vec<u8> = Vec::new();
    let mut i: usize = 0;
    while i < len
        invariant
            len == tensor@.len(),
            len == shape.byte_len(),
            kernel@.len() >= k * k * k,
            n_taps == k * k * k,
            k == kernel_size, ks == k, k % 2 == 1,
            half == k / 2,
            w == shape.width, h == shape.height,
            i <= len,
            out@.len() == i,
            forall|j: int| 0 <= j < i ==> out@[j] == convolved_byte(tensor@, shape, kernel@, k, j),
        decreases len - i,
    {
        let p = i / 4;
        let c = i % 4;
        proof {
            assert(p < shape.voxels());
            lemma_decompose(p as int, w as int, h as int, shape.frames as int);
        }
        let x = (p % w) as i64;
        let y = ((p / w) % h) as i64;
        let z = ((p / w) / h) as i64;
        let mut acc: i128 = 0;
        let mut t: usize = 0;
        while t < n_taps
            invariant
                len == tensor@.len(),
                len == shape.byte_len(),
                kernel@.len() >= k * k * k,
                n_taps == k * k * k,
                k == kernel_size, ks == k, k % 2 == 1, half == k / 2,
                w == shape.width, h == shape.height,
                i < len, p == i / 4, c == i % 4,
                x as int == (p as int) % (w as int),
                y as int == ((p as int) / (w as int)) % (h as int),
                z as int == ((p as int) / (w as int)) / (h as int),
                0 <= x < w, 0 <= y < h, 0 <= z < shape.frames,
                t <= n_taps,
                acc == window_sum(tensor@, shape, kernel@, k, i as int, t as int),
                forall|u: int| 0 <= u < t ==> 0 <= #[trigger] tap_sample(tensor@, shape, k, i as int, u) <= 255,
            decreases n_taps - t,
        {
            proof {
                assert((t as int) < k * k * k);
                lemma_decompose(t as int, k, k, k);
                assert((t as int) % k < k);
                assert((t % ks) as int == (t as int) % k);
            }
            let kx = (t % ks) as i64;
            let ky = ((t / ks) % ks) as i64;
            let kz = ((t / ks) / ks) as i64;
            let sx = clamp_index(x + kx - half, shape.width as i64);
            let sy = clamp_index(y + ky - half, shape.height as i64);
            let sz = clamp_index(z + kz - half, shape.frames as i64);
            proof {
                lemma_voxel_in_range(sx as int, sy as int, sz as int, c as int, shape);
            }
            let off = voxel_to_index(sx as u32, sy as u32, sz as u32, shape) + c;
            let sample = tensor[off];
            proof {
                assert(sample as int == tap_sample(tensor@, shape, k, i as int, t as int));
                lemma_window_sum_bound(tensor@, shape, kernel@, k, i as int, t as int);
                assert(t < 0x1_0000_0000_0000_0000);
                assert(-0x80_0000_0000 <= kernel[t as int] as int * sample as int <= 0x80_0000_0000)
                    by (nonlinear_arith)
                    requires 0 <= sample <= 255, -0x8000_0000 <= kernel[t as int] < 0x8000_0000;
            }
            acc = acc + (kernel[t] as i128) * (sample as i128);
            t = t + 1;
        }
        out.push(sample_from(acc));
        i = i + 1;
    }
    Ok(out)
}

/// Convolution preserves a uniform color: when every voxel holds the same
/// channel values and the kernel's weights add up to one, every output byte
/// equals the input byte at the same place, edges included.
pub proof fn lemma_convolve_uniform(tensor: Seq<u8>, shape: TensorShape, kernel: Seq<i32>, k: int)
    requires
        k > 0, k % 2 == 1,
        tensor.len() == shape.byte_len(),
        kernel.len() >= k * k * k,
        is_uniform(tensor),
        kernel_sum(kernel, k * k * k) == KERNEL_UNIT as int,
    ensures
        forall|i: int| 0 <= i < tensor.len() ==> #[trigger] convolved_byte(tensor, shape, kernel, k, i) == tensor[i],
{
    assert forall|i: int| 0 <= i < tensor.len() implies #[trigger] convolved_byte(tensor, shape, kernel, k, i) == tensor[i] by {
        let p = i / 4;
        assert(p < shape.voxels());
        lemma_decompose(p, shape.width as int, shape.height as int, shape.frames as int);
        let v = tensor[i % 4] as int;
        assert(tensor[i] == tensor[i % 4]);
        lemma_uniform_window(tensor, shape, kernel, k, i, k * k * k);
        let total = window_sum(tensor, shape, kernel, k, i, k * k * k);
        assert(total == v * (KERNEL_UNIT as int));
        assert(0 <= v <= 255);
        if v == 0 {
        } else if v == 255 {
        } else {
            assert((v * (KERNEL_UNIT as int)) / (KERNEL_UNIT as int) == v) by (nonlinear_arith);
        }
    }
}

proof fn lemma_uniform_window(tensor: Seq<u8>, shape: TensorShape, kernel: Seq<i32>, k: int, i: int, n: int)
    requires
        k > 0,
        0 <= i < tensor.len(),
        tensor.len() == shape.byte_len(),
        0 <= n <= kernel.len(),
        is_uniform(tensor),
        shape.width > 0, shape.height > 0,
        0 <= (i / 4) % (shape.width as int) < shape.width,
        0 <= ((i / 4) / (shape.width as int)) % (shape.height as int) < shape.height,
        0 <= ((i / 4) / (shape.width as int)) / (shape.height as int) < shape.frames,
    ensures
        window_sum(tensor, shape, kernel, k, i, n) == tensor[i % 4] * kernel_sum(kernel, n),
    decreases n,
{
    if n > 0 {
        lemma_uniform_window(tensor, shape, kernel, k, i, n - 1);
        let t = n - 1;
        let w = shape.width as int;
        let h = shape.height as int;
        let p = i / 4;
        let half = k / 2;
        let sx = clamp_coord(p % w + t % k - half, w);
        let sy = clamp_coord((p / w) % h + (t / k) % k - half, h);
        let sz = clamp_coord((p / w) / h + (t / k) / k - half, shape.frames as int);
        lemma_voxel_in_range(sx, sy, sz, i % 4, shape);
        let j = voxel_offset(sx, sy, sz, shape) + i % 4;
        assert(tensor[j] == tensor[j % 4]);
        assert(tap_sample(tensor, shape, k, i, t) == tensor[i % 4]);
        let v = tensor[i % 4] as int;
        assert(v * kernel_sum(kernel, t) + kernel[t] * v == v * (kernel_sum(kernel, t) + kernel[t]))
            by (nonlinear_arith);
    }
}

} // verus!
