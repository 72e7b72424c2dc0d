//! The batch pipeline: validate, convert to the working space, build one
//! palette for the batch, dither every frame in order, encode, and optionally
//! pack the voxel tensor.

use vstd::prelude::*;
use crate::{ProcessorError, mul3_wide, lemma_mul_le};
use crate::color::{OklabColor, srgb_to_oklab_batch, oklab_palette_to_srgb, srgb_of, pixel_working, working_of};
use crate::palette::{build_oklab_palette, palette_len, within_range, partition_means};
use crate::dither::{TemporalDither, FULL_STRENGTH, dither_batch, map_to_palette, is_nearest};
use crate::gif_encoder::{
    write_animation, palette_to_rgb, gif_file, frame_delay, padded_count, padded_palette, byte_views, encode_gif,
    frame_indices, frames_match, GifOptions, QuantizeResult,
};
use crate::tensor::{build_tensor, TensorShape};

verus! {

/// Color reduction options.
#[derive(Debug, Clone, Copy, PartialEq, Eq, Structural)]
pub struct QuantizeOpts {
    /// Quality floor, 0-100 (kept with the settings; the median-cut builder does not use it).
    pub quality_min: u8,
    /// Quality ceiling, 0-100.
    pub quality_max: u8,
    /// Speed hint, 1-10.
    pub speed: i32,
    /// Palette size, 1-256.
    pub palette_size: u16,
    /// Dithering strength per mille, 0-1000.
    pub dithering_level: u16,
    /// One palette for the whole batch (the container writes a single global
    /// palette either way).
    pub shared_palette: bool,
}

/// Output options.
#[derive(Debug, Clone, Copy, PartialEq, Eq, Structural)]
pub struct GifOpts {
    pub width: u16,
    pub height: u16,
    pub frame_count: u16,
    pub fps: u16,
    /// 0 loops forever.
    pub loop_count: u16,
    pub optimize: bool,
    /// Also return the frame-major voxel tensor.
    pub include_tensor: bool,
}

/// Both option records and the parallelism hint.
#[derive(Debug, Clone, Copy, PartialEq, Eq, Structural)]
pub struct ProcessorOptions {
    pub quantize: QuantizeOpts,
    pub gif: GifOpts,
    pub parallel: bool,
}

/// The encoded animation and its metrics.
#[derive(Debug, Clone)]
pub struct ProcessResult {
    pub gif_data: Vec<u8>,
    pub tensor_data: Option<Vec<u8>>,
    /// Size of `gif_data` in bytes (saturating).
    pub final_file_size: u32,
    pub actual_frame_count: u16,
    pub palette_size_used: u16,
}

/// The request is malformed: a zero dimension, frame count, palette size or
/// frame rate, a palette above 256 colors, a strength above 1000, or a buffer
/// whose length is not `width * height * 4 * frame_count`.
pub open spec fn request_invalid(len: int, width: u32, height: u32, frame_count: u32, q: QuantizeOpts, g: GifOpts) -> bool {
    ||| width == 0 || height == 0 || frame_count == 0
    ||| q.palette_size == 0 || q.palette_size > 256
    ||| q.dithering_level > FULL_STRENGTH
    ||| g.fps == 0
    ||| len != width as int * height as int * 4 * frame_count as int
}

/// The declared output size differs from the frames.
pub open spec fn size_mismatch(width: u32, height: u32, g: GifOpts) -> bool {
    g.width as u32 != width || g.height as u32 != height
}

/// `bytes` is an animation of the given size, loop count and delay, with a
/// global table of `colors` entries (padded) and `frames` frame records.
pub open spec fn is_animation(bytes: Seq<u8>, width: u16, height: u16, colors: int, loop_count: u16, delay: u16, frames: int) -> bool {
    exists|table: Seq<u8>, indices: Seq<Seq<u8>>| {
        &&& table.len() == 3 * padded_count(colors)
        &&& indices.len() == frames
        &&& forall|i: int| 0 <= i < frames ==> (#[trigger] indices[i]).len() == width as int * height as int
        &&& bytes == gif_file(width, height, table, loop_count, delay, indices)
    }
}

fn check_request(len: usize, width: u32, height: u32, frame_count: u32, q: &QuantizeOpts, g: &GifOpts)
    -> (r: Result<(), ProcessorError>)
    ensures
        r is Ok <==> !request_invalid(len as int, width, height, frame_count, *q, *g) && !size_mismatch(width, height, *g),
        r matches Err(e) ==> (e == ProcessorError::InvalidInput <==> request_invalid(len as int, width, height, frame_count, *q, *g)),
        r matches Err(e) ==> e == ProcessorError::InvalidInput || e == ProcessorError::EncodingError,
{
    if width == 0 || height == 0 || frame_count == 0 || q.palette_size == 0 || q.palette_size > 256
        || q.dithering_level > FULL_STRENGTH || g.fps == 0 {
        return Err(ProcessorError::InvalidInput);
    }
    let expected: u128 = mul3_wide(width, height, frame_count) * 4;
    proof {
        let (w, h, n) = (width as int, height as int, frame_count as int);
        assert(w * h * n * 4 == w * h * 4 * n) by (nonlinear_arith);
    }
    if len as u128 != expected {
        return Err(ProcessorError::InvalidInput);
    }
    if g.width as u32 != width || g.height as u32 != height {
        return Err(ProcessorError::EncodingError);
    }
    Ok(())
}

/// An RGBA color packed as `0xRRGGBBAA`.
pub open spec fn pack_rgba(c: Seq<u8>) -> u32 {
    (c[0] * 0x100_0000 + c[1] * 0x1_0000 + c[2] * 0x100 + c[3]) as u32
}

/// The opaque sRGB colors of a working-space palette, packed.
pub open spec fn packed_palette(palette: Seq<OklabColor>) -> Seq<u32> {
    Seq::new(palette.len(), |i: int| pack_rgba(srgb_of(palette[i]).push(255u8)))
}

/// The working colors of every whole pixel of an RGBA buffer.
pub open spec fn batch_samples(rgba: Seq<u8>) -> Seq<OklabColor> {
    Seq::new((rgba.len() / 4) as nat, |i: int| pixel_working(rgba, i))
}

/// A batch whose pixels all have the same RGB has exactly one distinct
/// working color, so its palette has a single entry (and its table two).
pub proof fn lemma_uniform_batch_one_color(rgba: Seq<u8>)
    requires
        rgba.len() >= 4,
        forall|i: int| 0 <= i < rgba.len() / 4 ==> {
            &&& #[trigger] rgba[4 * i] == rgba[0]
            &&& rgba[4 * i + 1] == rgba[1]
            &&& rgba[4 * i + 2] == rgba[2]
        },
    ensures
        batch_samples(rgba).to_set().len() == 1,
        forall|target: int| target >= 1 ==> #[trigger] palette_len(batch_samples(rgba).to_set().len() as int, target) == 1,
{
    let s = batch_samples(rgba);
    let c = working_of(rgba[0], rgba[1], rgba[2]);
    assert(s.len() >= 1);
    assert(s.to_set() =~= set![c]) by {
        assert forall|x: OklabColor| s.to_set().contains(x) implies x == c by {
            let i = choose|i: int| 0 <= i < s.len() && s[i] == x;
            assert(rgba[4 * i] == rgba[0]);
        }
        assert(s[0] == c);
        assert(s.contains(c));
    }
    assert(set![c].len() == 1);
}

/// `bytes` is what the pipeline writes for `rgba` with `palette`: the palette
/// has the size median cut gives, lies in the range of the samples and holds
/// the means of a partition of them, and the frames are the batch's temporal
/// diffusion against it.
pub open spec fn pipeline_output(
    bytes: Seq<u8>,
    palette: Seq<OklabColor>,
    rgba: Seq<u8>,
    width: u32,
    height: u32,
    frame_count: u32,
    q: QuantizeOpts,
    g: GifOpts,
) -> bool {
    let samples = batch_samples(rgba);
    &&& palette.len() == palette_len(samples.to_set().len() as int, q.palette_size as int)
    &&& forall|i: int| 0 <= i < palette.len() ==> within_range(#[trigger] palette[i], samples)
    &&& exists|groups: Seq<Seq<OklabColor>>| #[trigger] partition_means(samples, groups, palette)
    &&& bytes == gif_file(g.width, g.height, padded_palette(packed_palette(palette)), g.loop_count,
        frame_delay(g.fps), dither_batch(frame_slices(samples, width as int * height as int, frame_count as int),
            palette, width as int, height as int, q.dithering_level as int, frame_count as int).0)
}

/// The global color table for a working-space palette.
fn color_table(palette: &Vec<OklabColor>) -> (r: Vec<u8>)
    requires
        palette@.len() <= 256,
    ensures
        r@.len() == 3 * padded_count(palette@.len() as int),
        r@ == padded_palette(packed_palette(palette@)),
{
    let rgba = oklab_palette_to_srgb(palette.as_slice());
    let mut packed: Vec<u32> = Vec::new();
    let mut i: usize = 0;
    while i < rgba.len()
        invariant
            i <= rgba@.len(),
            rgba@.len() == palette@.len(),
            forall|j: int| 0 <= j < palette@.len() ==> (#[trigger] rgba@[j])@ == srgb_of(palette@[j]).push(255u8),
            packed@.len() == i,
            forall|j: int| 0 <= j < i ==> #[trigger] packed@[j] == packed_palette(palette@)[j],
        decreases rgba@.len() - i,
    {
        let c = rgba[i];
        let v = (c[0] as u32) * 0x100_0000 + (c[1] as u32) * 0x1_0000 + (c[2] as u32) * 0x100 + c[3] as u32;
        assert(v == pack_rgba(c@));
        packed.push(v);
        i = i + 1;
    }
    assert(packed@ =~= packed_palette(palette@));
    let table = palette_to_rgb(&packed);
    proof { crate::gif_encoder::lemma_padded_palette_len(packed@); }
    table
}

/// The consecutive frames of `count` frames of `per_frame` samples each.
pub open spec fn frame_slices(samples: Seq<OklabColor>, per_frame: int, count: int) -> Seq<Seq<OklabColor>> {
    Seq::new(count as nat, |f: int| samples.subrange(f * per_frame, f * per_frame + per_frame))
}

/// Dithers `frames` consecutive frames of `width * height` samples each, in
/// order, with one temporal ditherer for the batch.
pub fn dither_frames(
    samples: &Vec<OklabColor>,
    palette: &Vec<OklabColor>,
    width: usize,
    height: usize,
    frames: usize,
    strength: u16,
) -> (r: Vec<Vec<u8>>)
    requires
        samples@.len() == width * height * frames,
        width * height * 3 <= usize::MAX,
        1 <= palette@.len() <= 256,
        strength <= FULL_STRENGTH,
    ensures
        byte_views(r@) == dither_batch(frame_slices(samples@, width * height, frames as int), palette@,
            width as int, height as int, strength as int, frames as int).0,
        r@.len() == frames,
        forall|i: int| 0 <= i < frames ==> (#[trigger] r@[i])@.len() == width * height,
{
    let per_frame = width * height;
    let total = samples.len();
    let ghost slices = frame_slices(samples@, width * height, frames as int);
    let mut ditherer = TemporalDither::with_strength(strength);
    let mut out: Vec<Vec<u8>> = Vec::new();
    let mut f: usize = 0;
    while f < frames
        invariant
            samples@.len() == width * height * frames,
            total == samples@.len(),
            per_frame == width * height,
            slices == frame_slices(samples@, width * height, frames as int),
            width * height * 3 <= usize::MAX,
            1 <= palette@.len() <= 256,
            ditherer.wf(),
            ditherer.strength_of() == strength,
            f <= frames,
            out@.len() == f,
            byte_views(out@) == dither_batch(slices, palette@, width as int, height as int, strength as int, f as int).0,
            ditherer.carried() == dither_batch(slices, palette@, width as int, height as int, strength as int, f as int).1,
            forall|i: int| 0 <= i < f ==> (#[trigger] out@[i])@.len() == width * height,
        decreases frames - f,
    {
        proof {
            assert((f + 1) * per_frame <= per_frame * frames) by (nonlinear_arith)
                requires f < frames, per_frame >= 0;
            assert(per_frame * frames == width * height * frames) by (nonlinear_arith)
                requires per_frame == width * height;
            assert(f * per_frame + per_frame == (f + 1) * per_frame) by (nonlinear_arith);
            assert(0 <= f * per_frame) by (nonlinear_arith) requires f >= 0, per_frame >= 0;
        }
        let start = f * per_frame;
        let frame = vstd::slice::slice_subrange(samples.as_slice(), start, start + per_frame);
        assert(frame@ == slices[f as int]);
        let ghost before = out@;
        let indices = ditherer.apply(frame, palette.as_slice(), width, height);
        out.push(indices);
        proof {
            assert(byte_views(out@) =~= byte_views(before).push(out@[f as int]@));
        }
        f = f + 1;
    }
    out
}

/// Converts a batch of RGBA frames into an animation: one palette built by
/// median cut over every sample of the batch, temporal error diffusion frame
/// by frame, then the container. Malformed requests are rejected before any
/// work.
pub fn process_all_frames(
    frames_rgba: Vec<u8>,
    width: u32,
    height: u32,
    frame_count: u32,
    quantize_opts: QuantizeOpts,
    gif_opts: GifOpts,
) -> (r: Result<ProcessResult, ProcessorError>)
    ensures
        request_invalid(frames_rgba@.len() as int, width, height, frame_count, quantize_opts, gif_opts)
            ==> r == Err::<ProcessResult, ProcessorError>(ProcessorError::InvalidInput),
        !request_invalid(frames_rgba@.len() as int, width, height, frame_count, quantize_opts, gif_opts)
            && size_mismatch(width, height, gif_opts)
            ==> r == Err::<ProcessResult, ProcessorError>(ProcessorError::EncodingError),
        !request_invalid(frames_rgba@.len() as int, width, height, frame_count, quantize_opts, gif_opts)
            && !size_mismatch(width, height, gif_opts) ==> r is Ok,
        r matches Err(e) ==> e == ProcessorError::InvalidInput || e == ProcessorError::EncodingError,
        r matches Ok(res) ==> {
            &&& res.actual_frame_count as int == if frame_count <= u16::MAX { frame_count as int } else { u16::MAX as int }
            &&& res.palette_size_used as int == palette_len(batch_samples(frames_rgba@).to_set().len() as int,
                quantize_opts.palette_size as int)
            &&& is_animation(res.gif_data@, gif_opts.width, gif_opts.height, res.palette_size_used as int,
                gif_opts.loop_count, frame_delay(gif_opts.fps), frame_count as int)
            &&& exists|palette: Seq<OklabColor>| #[trigger] pipeline_output(res.gif_data@, palette, frames_rgba@,
                width, height, frame_count, quantize_opts, gif_opts)
            &&& res.final_file_size as int == if res.gif_data@.len() <= u32::MAX { res.gif_data@.len() as int } else { u32::MAX as int }
            &&& (gif_opts.include_tensor ==> (res.tensor_data matches Some(t) && t@ == frames_rgba@))
            &&& (!gif_opts.include_tensor ==> res.tensor_data is None)
        },
{
    let len = frames_rgba.len();
    match check_request(len, width, height, frame_count, &quantize_opts, &gif_opts) {
        Ok(()) => {},
        Err(e) => { return Err(e); },
    }
    let w = width as usize;
    let h = height as usize;
    let n_frames = frame_count as usize;
    proof {
        let (wi, hi, ni) = (width as int, height as int, frame_count as int);
        assert(wi * hi * 4 * ni == 4 * (wi * hi * ni)) by (nonlinear_arith);
        assert(wi * hi * 3 <= wi * hi * 4 * ni) by (nonlinear_arith) requires wi >= 0, hi >= 0, ni >= 1;
        assert(wi * hi * ni >= 1) by (nonlinear_arith) requires wi >= 1, hi >= 1, ni >= 1;
        assert(wi * hi * ni == w as int * h as int * n_frames as int);
    }
    let samples = srgb_to_oklab_batch(frames_rgba.as_slice());
    assert(samples@ =~= batch_samples(frames_rgba@));
    let palette = build_oklab_palette(samples.as_slice(), quantize_opts.palette_size as usize);
    proof { crate::palette::lemma_distinct_nonempty(samples@); }
    let table = color_table(&palette);
    let indexed = dither_frames(&samples, &palette, w, h, n_frames, quantize_opts.dithering_level);
    let delay = 100 / gif_opts.fps;
    proof {
        assert forall|i: int| 0 <= i < indexed@.len() implies (#[trigger] indexed@[i])@.len()
            == gif_opts.width as int * gif_opts.height as int by {}
        assert(1 <= table@.len() / 3 <= 256) by {
            reveal_with_fuel(crate::gif_encoder::table_entries, 8);
        }
    }
    let gif_data = match write_animation(gif_opts.width, gif_opts.height, table.as_slice(), gif_opts.loop_count, delay, &indexed) {
        Ok(bytes) => bytes,
        Err(e) => { return Err(e); },
    };
    proof {
        let (wi, hi, ni) = (width as int, height as int, frame_count as int);
        assert(wi * hi * 4 * ni == wi * hi * ni * 4) by (nonlinear_arith);
    }
    let tensor_data = if gif_opts.include_tensor {
        match build_tensor(frames_rgba.as_slice(), TensorShape::new(width, height, frame_count)) {
            Ok(t) => Some(t),
            Err(e) => { return Err(e); },
        }
    } else {
        None
    };
    let size = gif_data.len();
    let final_file_size: u32 = if size as u64 <= u32::MAX as u64 { size as u32 } else { u32::MAX };
    let actual_frame_count: u16 = if frame_count <= u16::MAX as u32 { frame_count as u16 } else { u16::MAX };
    let palette_size_used = palette.len() as u16;
    proof {
        assert(pipeline_output(gif_data@, palette@, frames_rgba@, width, height, frame_count, quantize_opts, gif_opts));
        let views = byte_views(indexed@);
        assert(views.len() == frame_count as int);
        assert forall|i: int| 0 <= i < frame_count as int implies (#[trigger] views[i]).len()
            == gif_opts.width as int * gif_opts.height as int by {}
    }
    Ok(ProcessResult { gif_data, tensor_data, final_file_size, actual_frame_count, palette_size_used })
}

/// `indices` and `colors` are what single-frame quantization gives for
/// `rgba` with working palette `palette`: a median-cut palette of the right
/// size, every pixel mapped to its nearest entry, the entries as opaque sRGB.
pub open spec fn oklab_quantized(rgba: Seq<u8>, palette_size: int, palette: Seq<OklabColor>, indices: Seq<u8>, colors: Seq<[u8; 4]>) -> bool {
    let samples = batch_samples(rgba);
    &&& palette.len() == palette_len(samples.to_set().len() as int, palette_size)
    &&& palette_size > 0 && samples.len() > 0 ==> exists|groups: Seq<Seq<OklabColor>>|
            #[trigger] partition_means(samples, groups, palette)
    &&& indices.len() == samples.len()
    &&& forall|i: int| 0 <= i < indices.len() ==> is_nearest(palette, samples[i].l as int, samples[i].a as int,
            samples[i].b as int, #[trigger] indices[i] as int)
    &&& colors.len() == palette.len()
    &&& forall|i: int| 0 <= i < colors.len() ==> (#[trigger] colors[i])@ == srgb_of(palette[i]).push(255u8)
}

/// Quantizes one RGBA frame in the working space: median-cut palette of at
/// most `palette_size` colors and nearest-entry mapping, no dithering. The
/// frame size is not needed: every whole pixel of the buffer is used.
pub fn quantize_in_oklab(rgba_data: &[u8], width: u32, height: u32, palette_size: usize)
    -> (r: Result<(Vec<u8>, Vec<[u8; 4]>), ProcessorError>)
    ensures
        (palette_size == 0 || palette_size > 256 || rgba_data@.len() < 4) <==> r is Err,
        r matches Err(e) ==> e == ProcessorError::InvalidInput,
        r matches Ok(res) ==> exists|palette: Seq<OklabColor>|
            #[trigger] oklab_quantized(rgba_data@, palette_size as int, palette, res.0@, res.1@),
{
    if palette_size == 0 || palette_size > 256 || rgba_data.len() < 4 {
        return Err(ProcessorError::InvalidInput);
    }
    let samples = srgb_to_oklab_batch(rgba_data);
    assert(samples@ =~= batch_samples(rgba_data@));
    let palette = build_oklab_palette(samples.as_slice(), palette_size);
    proof { crate::palette::lemma_distinct_nonempty(samples@); }
    let indices = map_to_palette(samples.as_slice(), palette.as_slice());
    let colors = oklab_palette_to_srgb(palette.as_slice());
    let res = (indices, colors);
    assert(oklab_quantized(rgba_data@, palette_size as int, palette@, res.0@, res.1@));
    let out: Result<(Vec<u8>, Vec<[u8; 4]>), ProcessorError> = Ok(res);
    assert(out matches Ok(v) && v.0@ == res.0@ && v.1@ == res.1@);
    out
}

/// Runs the pipeline and returns the encoded animation alone.
pub fn process_frames_to_gif_impl(
    frames_rgba: Vec<u8>,
    width: u32,
    height: u32,
    frame_count: u32,
    options: ProcessorOptions,
) -> (r: Result<Vec<u8>, ProcessorError>)
    ensures
        request_invalid(frames_rgba@.len() as int, width, height, frame_count, options.quantize, options.gif)
            ==> r == Err::<Vec<u8>, ProcessorError>(ProcessorError::InvalidInput),
        !request_invalid(frames_rgba@.len() as int, width, height, frame_count, options.quantize, options.gif)
            && size_mismatch(width, height, options.gif)
            ==> r == Err::<Vec<u8>, ProcessorError>(ProcessorError::EncodingError),
        r matches Err(e) ==> e == ProcessorError::InvalidInput || e == ProcessorError::EncodingError,
        !request_invalid(frames_rgba@.len() as int, width, height, frame_count, options.quantize, options.gif)
            && !size_mismatch(width, height, options.gif) ==> r is Ok,
        r matches Ok(bytes) ==> is_animation(bytes@, options.gif.width, options.gif.height,
            palette_len(batch_samples(frames_rgba@).to_set().len() as int, options.quantize.palette_size as int),
            options.gif.loop_count, frame_delay(options.gif.fps), frame_count as int),
{
    match process_all_frames(frames_rgba, width, height, frame_count, options.quantize, options.gif) {
        Ok(result) => Ok(result.gif_data),
        Err(e) => Err(e),
    }
}

/// Quantizes and encodes frames given one vector per frame, with a shared
/// palette of up to 255 colors, 85% dithering and an endless loop.
pub fn encode_rgba_to_gif(rgba_frames: Vec<Vec<u8>>, width: u32, height: u32, fps: u16) -> (r: Result<Vec<u8>, ProcessorError>)
    ensures
        (rgba_frames@.len() == 0 || width == 0 || height == 0 || fps == 0 || rgba_frames@.len() > u32::MAX
            || exists|i: int| 0 <= i < rgba_frames@.len()
                && (#[trigger] rgba_frames@[i])@.len() != width as int * height as int * 4)
            ==> r == Err::<Vec<u8>, ProcessorError>(ProcessorError::InvalidInput),
        r matches Err(e) ==> e == ProcessorError::InvalidInput || e == ProcessorError::EncodingError,
        rgba_frames@.len() > 0 && 0 < width <= u16::MAX && 0 < height <= u16::MAX && fps > 0
            && rgba_frames@.len() <= u32::MAX
            && rgba_frames@.len() * (width as int * height as int * 4) <= usize::MAX
            && (forall|i: int| 0 <= i < rgba_frames@.len()
                ==> (#[trigger] rgba_frames@[i])@.len() == width as int * height as int * 4)
            ==> r is Ok,
        r matches Ok(bytes) ==> exists|colors: int| 1 <= colors <= 255 && #[trigger] is_animation(bytes@,
            width as u16, height as u16, colors, 0, frame_delay(fps), rgba_frames@.len() as int),
{
    if rgba_frames.len() == 0 || width == 0 || height == 0 || fps == 0 || rgba_frames.len() as u64 > u32::MAX as u64 {
        return Err(ProcessorError::InvalidInput);
    }
    let frame_bytes: u128 = mul3_wide(width, height, 4);
    let mut all: Vec<u8> = Vec::new();
    let mut i: usize = 0;
    while i < rgba_frames.len()
        invariant
            i <= rgba_frames@.len(),
            frame_bytes == width as int * height as int * 4,
            all@.len() == i * (width as int * height as int * 4),
            forall|j: int| 0 <= j < i ==> (#[trigger] rgba_frames@[j])@.len() == width as int * height as int * 4,
        decreases rgba_frames@.len() - i,
    {
        if rgba_frames[i].len() as u128 != frame_bytes {
            return Err(ProcessorError::InvalidInput);
        }
        proof {
            let fb = width as int * height as int * 4;
            assert((i + 1) * fb == i * fb + fb) by (nonlinear_arith);
            if rgba_frames@.len() * fb <= usize::MAX {
                assert((i + 1) * fb <= rgba_frames@.len() * fb) by (nonlinear_arith)
                    requires i + 1 <= rgba_frames@.len(), fb >= 0;
            }
        }
        if all.len() > usize::MAX - rgba_frames[i].len() {
            return Err(ProcessorError::InvalidInput);
        }
        all.extend_from_slice(rgba_frames[i].as_slice());
        i = i + 1;
    }
    let frame_count = rgba_frames.len() as u32;
    let quantize = QuantizeOpts {
        quality_min: 85,
        quality_max: 100,
        speed: 5,
        palette_size: 255,
        dithering_level: 850,
        shared_palette: true,
    };
    let gif = GifOpts {
        width: width as u16,
        height: height as u16,
        frame_count: if frame_count <= u16::MAX as u32 { frame_count as u16 } else { u16::MAX },
        fps,
        loop_count: 0,
        optimize: true,
        include_tensor: false,
    };
    proof {
        let (w, h, n) = (width as int, height as int, frame_count as int);
        assert(n * (w * h * 4) == w * h * 4 * n) by (nonlinear_arith);
    }
    let ghost all_bytes = all@;
    proof {
        let (w, h, n) = (width as int, height as int, frame_count as int);
        assert(w * h * 4 * n >= 4) by (nonlinear_arith) requires w >= 1, h >= 1, n >= 1;
        crate::palette::lemma_distinct_nonempty(batch_samples(all_bytes));
    }
    let options = ProcessorOptions { quantize, gif, parallel: true };
    let r = process_frames_to_gif_impl(all, width, height, frame_count, options);
    proof {
        if r is Ok {
            let colors = palette_len(batch_samples(all_bytes).to_set().len() as int, 255);
            assert(1 <= colors <= 255);
        }
    }
    r
}

/// The colors of a quantized frame, packed as `0xRRGGBBAA`.
pub open spec fn packed_colors(colors: Seq<[u8; 4]>) -> Seq<u32> {
    Seq::new(colors.len(), |i: int| pack_rgba(colors[i]@))
}

fn pack_colors(colors: &Vec<[u8; 4]>) -> (r: Vec<u32>)
    ensures
        r@ == packed_colors(colors@),
{
    let mut out: Vec<u32> = Vec::new();
    let mut i: usize = 0;
    while i < colors.len()
        invariant
            i <= colors@.len(),
            out@.len() == i,
            forall|j: int| 0 <= j < i ==> #[trigger] out@[j] == packed_colors(colors@)[j],
        decreases colors@.len() - i,
    {
        let c = colors[i];
        let v = (c[0] as u32) * 0x100_0000 + (c[1] as u32) * 0x1_0000 + (c[2] as u32) * 0x100 + c[3] as u32;
        assert(v == pack_rgba(c@));
        out.push(v);
        i = i + 1;
    }
    assert(out@ =~= packed_colors(colors@));
    out
}

/// Quantizes the first frame of a batch (`quantize_in_oklab`) and returns it
/// with its packed palette.
pub fn quantize_frames_impl(frames_rgba: Vec<u8>, width: u32, height: u32, frame_count: u32, options: QuantizeOpts)
    -> (r: Result<QuantizeResult, ProcessorError>)
    ensures
        (width as int * height as int * 4 > frames_rgba@.len() || width == 0 || height == 0
            || options.palette_size == 0 || options.palette_size > 256)
            <==> r is Err,
        r matches Err(e) ==> e == ProcessorError::InvalidInput,
        r matches Ok(q) ==> {
            &&& q.width == width && q.height == height
            &&& exists|palette: Seq<OklabColor>, colors: Seq<[u8; 4]>| {
                &&& #[trigger] oklab_quantized(frames_rgba@.subrange(0, width as int * height as int * 4),
                    options.palette_size as int, palette, q.indices@, colors)
                &&& q.palette@ == packed_colors(colors)
            }
        },
{
    let frame_bytes: u128 = mul3_wide(width, height, 4);
    if width == 0 || height == 0 || frame_bytes > frames_rgba.len() as u128
        || options.palette_size == 0 || options.palette_size > 256 {
        return Err(ProcessorError::InvalidInput);
    }
    let first = vstd::slice::slice_subrange(frames_rgba.as_slice(), 0, frame_bytes as usize);
    proof {
        assert(frame_bytes as int >= 4) by (nonlinear_arith)
            requires frame_bytes as int == width as int * height as int * 4, width >= 1, height >= 1;
    }
    match quantize_in_oklab(first, width, height, options.palette_size as usize) {
        Ok(res) => {
            let ghost wp = choose|p: Seq<OklabColor>| #[trigger] oklab_quantized(first@, options.palette_size as int,
                p, res.0@, res.1@);
            let (indices, colors) = res;
            let palette = pack_colors(&colors);
            let q = QuantizeResult { indices, palette, width, height };
            assert(oklab_quantized(frames_rgba@.subrange(0, width as int * height as int * 4),
                options.palette_size as int, wp, q.indices@, colors@));
            assert(q.palette@ == packed_colors(colors@));
            assert(exists|p: Seq<OklabColor>, c: Seq<[u8; 4]>| {
                &&& #[trigger] oklab_quantized(frames_rgba@.subrange(0, width as int * height as int * 4),
                    options.palette_size as int, p, q.indices@, c)
                &&& q.palette@ == packed_colors(c)
            });
            let out: Result<QuantizeResult, ProcessorError> = Ok(q);
            assert(out matches Ok(v) && v.indices@ == q.indices@ && v.palette@ == q.palette@);
            out
        },
        Err(e) => Err(e),
    }
}

/// The container options for one quantized frame.
pub open spec fn single_frame_options(q: QuantizeResult, options: GifOpts) -> GifOptions {
    GifOptions {
        width: options.width,
        height: options.height,
        frame_count: options.frame_count,
        fps: options.fps,
        loop_count: options.loop_count,
        optimize: options.optimize,
    }
}

/// Encodes one quantized frame (`encode_gif` with the given options).
pub fn encode_quantized_gif_impl(quantized: QuantizeResult, options: GifOpts) -> (r: Result<Vec<u8>, ProcessorError>)
    ensures
        options.fps == 0 ==> r == Err::<Vec<u8>, ProcessorError>(ProcessorError::InvalidInput),
        options.fps > 0 && !frames_match(seq![quantized], single_frame_options(quantized, options))
            ==> r == Err::<Vec<u8>, ProcessorError>(ProcessorError::EncodingError),
        options.fps > 0 && quantized.palette@.len() > 256
            ==> r == Err::<Vec<u8>, ProcessorError>(ProcessorError::EncodingError),
        options.fps > 0 && frames_match(seq![quantized], single_frame_options(quantized, options))
            && quantized.palette@.len() <= 256 ==> r is Ok,
        r matches Ok(bytes) ==> bytes@ == gif_file(options.width, options.height, padded_palette(quantized.palette@),
            options.loop_count, frame_delay(options.fps), seq![quantized.indices@]),
        r matches Err(e) ==> e == ProcessorError::InvalidInput || e == ProcessorError::EncodingError,
{
    let gif_options = GifOptions {
        width: options.width,
        height: options.height,
        frame_count: options.frame_count,
        fps: options.fps,
        loop_count: options.loop_count,
        optimize: options.optimize,
    };
    let ghost q = quantized;
    let mut frames: Vec<QuantizeResult> = Vec::new();
    frames.push(quantized);
    assert(frames@ =~= seq![q]);
    assert(frame_indices(frames@) =~= seq![q.indices@]);
    encode_gif(frames, &gif_options)
}

/// Packs frames into a tensor of `shape` (`build_tensor`).
pub fn build_cube_tensor_impl(frames_rgba: Vec<u8>, shape: TensorShape) -> (r: Result<Vec<u8>, ProcessorError>)
    ensures
        r is Ok <==> frames_rgba@.len() == shape.byte_len(),
        r matches Ok(v) ==> v@ == frames_rgba@,
        r matches Err(e) ==> e == ProcessorError::InvalidInput,
{
    build_tensor(frames_rgba.as_slice(), shape)
}

/// Stateful front end holding the quality and speed settings.
#[derive(Debug, Clone, Copy, PartialEq, Eq, Structural)]
pub struct ProcessorImpl {
    quality_min: u8,
    quality_max: u8,
    speed: i32,
}

impl ProcessorImpl {
    pub closed spec fn quality(&self) -> (u8, u8) {
        (self.quality_min, self.quality_max)
    }

    pub closed spec fn speed_setting(&self) -> i32 {
        self.speed
    }

    /// Quality 70-100, speed 5.
    pub fn new() -> (r: ProcessorImpl)
        ensures
            r.quality() == (70u8, 100u8),
            r.speed_setting() == 5,
    {
        ProcessorImpl { quality_min: 70, quality_max: 100, speed: 5 }
    }

    /// Sets the quality range; rejects a range that is inverted or above 100.
    pub fn set_quality(&mut self, min_quality: u8, max_quality: u8) -> (r: Result<(), ProcessorError>)
        ensures
            r is Ok <==> min_quality <= max_quality && max_quality <= 100,
            r matches Err(e) ==> e == ProcessorError::InvalidInput && *final(self) == *old(self),
            r is Ok ==> final(self).quality() == (min_quality, max_quality)
                && final(self).speed_setting() == old(self).speed_setting(),
    {
        if min_quality > max_quality || max_quality > 100 {
            return Err(ProcessorError::InvalidInput);
        }
        self.quality_min = min_quality;
        self.quality_max = max_quality;
        Ok(())
    }

    /// Sets the speed; rejects values outside 1-10.
    pub fn set_speed(&mut self, speed: i32) -> (r: Result<(), ProcessorError>)
        ensures
            r is Ok <==> 1 <= speed <= 10,
            r matches Err(e) ==> e == ProcessorError::InvalidInput && *final(self) == *old(self),
            r is Ok ==> final(self).speed_setting() == speed && final(self).quality() == old(self).quality(),
    {
        if speed < 1 || speed > 10 {
            return Err(ProcessorError::InvalidInput);
        }
        self.speed = speed;
        Ok(())
    }

    /// The options this processor uses for a batch of the given size.
    pub open spec fn options_for(&self, width: u32, height: u32, frame_count: u32, fps: u16) -> ProcessorOptions {
        ProcessorOptions {
            quantize: QuantizeOpts {
                quality_min: self.quality().0,
                quality_max: self.quality().1,
                speed: self.speed_setting(),
                palette_size: 256,
                dithering_level: FULL_STRENGTH,
                shared_palette: true,
            },
            gif: GifOpts {
                width: width as u16,
                height: height as u16,
                frame_count: frame_count as u16,
                fps,
                loop_count: 0,
                optimize: true,
            include_tensor: false,
            },
            parallel: true,
        }
    }

    /// The quantization options of this processor: 256 colors, full dithering.
    pub open spec fn quantize_options(&self) -> QuantizeOpts {
        QuantizeOpts {
            quality_min: self.quality().0,
            quality_max: self.quality().1,
            speed: self.speed_setting(),
            palette_size: 256,
            dithering_level: FULL_STRENGTH,
            shared_palette: true,
        }
    }

    /// Quantizes the first frame of a batch with 256 colors (`quantize_frames_impl`).
    pub fn quantize_batch(&self, frames_rgba: Vec<u8>, width: u32, height: u32, frame_count: u32)
        -> (r: Result<QuantizeResult, ProcessorError>)
        ensures
            (width as int * height as int * 4 > frames_rgba@.len() || width == 0 || height == 0) <==> r is Err,
            r matches Err(e) ==> e == ProcessorError::InvalidInput,
            r matches Ok(q) ==> {
                &&& q.width == width && q.height == height
                &&& exists|palette: Seq<OklabColor>, colors: Seq<[u8; 4]>| {
                    &&& #[trigger] oklab_quantized(frames_rgba@.subrange(0, width as int * height as int * 4),
                        256, palette, q.indices@, colors)
                    &&& q.palette@ == packed_colors(colors)
                }
            },
    {
        let options = QuantizeOpts {
            quality_min: self.quality_min,
            quality_max: self.quality_max,
            speed: self.speed,
            palette_size: 256,
            dithering_level: FULL_STRENGTH,
            shared_palette: true,
        };
        quantize_frames_impl(frames_rgba, width, height, frame_count, options)
    }

    /// Encodes one quantized frame at `fps`, looping forever.
    pub fn encode_gif(&self, quantized: QuantizeResult, fps: u16) -> (r: Result<Vec<u8>, ProcessorError>)
        ensures
            fps == 0 ==> r == Err::<Vec<u8>, ProcessorError>(ProcessorError::InvalidInput),
            fps > 0 && quantized.width <= u16::MAX && quantized.height <= u16::MAX
                && quantized.indices@.len() == quantized.width as int * quantized.height as int
                && quantized.palette@.len() <= 256 ==> r is Ok,
            r matches Ok(bytes) ==> bytes@ == gif_file(quantized.width as u16, quantized.height as u16,
                padded_palette(quantized.palette@), 0, frame_delay(fps), seq![quantized.indices@]),
            r matches Err(e) ==> e == ProcessorError::InvalidInput || e == ProcessorError::EncodingError,
    {
        let options = GifOpts {
            width: quantized.width as u16,
            height: quantized.height as u16,
            frame_count: 1,
            fps,
            loop_count: 0,
            optimize: true,
            include_tensor: false,
        };
        encode_quantized_gif_impl(quantized, options)
    }

    /// Quantizes and encodes a whole batch: 256 colors, full dithering, endless loop.
    pub fn process_complete(&self, frames_rgba: Vec<u8>, width: u32, height: u32, frame_count: u32, fps: u16)
        -> (r: Result<Vec<u8>, ProcessorError>)
        ensures
            request_invalid(frames_rgba@.len() as int, width, height, frame_count,
                self.options_for(width, height, frame_count, fps).quantize,
                self.options_for(width, height, frame_count, fps).gif)
                ==> r == Err::<Vec<u8>, ProcessorError>(ProcessorError::InvalidInput),
            !request_invalid(frames_rgba@.len() as int, width, height, frame_count,
                self.options_for(width, height, frame_count, fps).quantize,
                self.options_for(width, height, frame_count, fps).gif)
                && width <= u16::MAX && height <= u16::MAX ==> r is Ok,
            r matches Err(e) ==> e == ProcessorError::InvalidInput || e == ProcessorError::EncodingError,
            r matches Ok(bytes) ==> is_animation(bytes@, width as u16, height as u16,
                palette_len(batch_samples(frames_rgba@).to_set().len() as int, 256),
                0, frame_delay(fps), frame_count as int),
    {
        let options = ProcessorOptions {
            quantize: QuantizeOpts {
                quality_min: self.quality_min,
                quality_max: self.quality_max,
                speed: self.speed,
                palette_size: 256,
                dithering_level: FULL_STRENGTH,
                shared_palette: true,
            },
            gif: GifOpts {
                width: width as u16,
                height: height as u16,
                frame_count: frame_count as u16,
                fps,
                loop_count: 0,
                optimize: true,
                include_tensor: false,
            },
            parallel: true,
        };
        process_frames_to_gif_impl(frames_rgba, width, height, frame_count, options)
    }
}

} // verus!
