//! Animated GIF container: the bytes of the header, palette, loop extension,
//! frame records and trailer, written through the `gif` crate's encoder.

use vstd::prelude::*;
use crate::{ProcessorError, lemma_mul_le};

verus! {

/// An animation being written into memory by a `gif::Encoder`; the bytes
/// written so far are `gif_written`.
#[verifier::external_body]
pub struct GifWriter {
    encoder: gif::Encoder<Vec<u8>>,
}

#[verifier::external_type_specification]
#[verifier::external_body]
pub struct ExEncodingError(gif::EncodingError);

#[verifier::external_type_specification]
#[verifier::external_body]
pub struct ExIoError(std::io::Error);

#[verifier::external_type_specification]
pub struct ExRepeat(gif::Repeat);

/// The bytes that an encoder has written into its buffer so far.
pub uninterp spec fn gif_written(w: GifWriter) -> Seq<u8>;

/// Whether the encoder was given a non-empty global color table.
pub uninterp spec fn gif_has_table(w: GifWriter) -> bool;

/// The image data block that the `gif` crate writes for a frame's indices:
/// the LZW minimum code size, the compressed data in sub-blocks, and the
/// block terminator.
pub uninterp spec fn lzw_image_data(indices: Seq<u8>) -> Seq<u8>;

/// A 16-bit value, little-endian.
pub open spec fn le16(v: int) -> Seq<u8> {
    seq![(v % 256) as u8, (v / 256) as u8]
}

/// The signature that opens every file: `GIF89a`.
pub open spec fn gif_signature() -> Seq<u8> {
    seq![0x47u8, 0x49u8, 0x46u8, 0x38u8, 0x39u8, 0x61u8]
}

/// The size field of a color table of `n` colors: the table holds
/// `table_entries(table_flag(n))` entries.
pub open spec fn table_flag(n: int) -> int {
    if n <= 2 {
        0
    } else if n <= 4 {
        1
    } else if n <= 8 {
        2
    } else if n <= 16 {
        3
    } else if n <= 32 {
        4
    } else if n <= 64 {
        5
    } else if n <= 128 {
        6
    } else {
        7
    }
}

/// Number of entries of a color table with size field `flag`.
pub open spec fn table_entries(flag: int) -> int
    decreases flag,
{
    if flag <= 0 {
        2
    } else {
        2 * table_entries(flag - 1)
    }
}

/// `n` zero bytes.
pub open spec fn zeros(n: int) -> Seq<u8> {
    Seq::new(n as nat, |i: int| 0u8)
}

/// Header and logical screen descriptor followed by the global color table
/// made of the first `palette.len() / 3` RGB triples, padded with black.
pub open spec fn screen_header(width: u16, height: u16, palette: Seq<u8>) -> Seq<u8> {
    let n = palette.len() as int / 3;
    let flag = table_flag(n);
    gif_signature() + le16(width as int) + le16(height as int)
        + seq![(128 + 17 * flag) as u8, 0u8, 0u8]
        + palette.subrange(0, n * 3) + zeros(3 * (table_entries(flag) - n))
}

/// The application extension that asks viewers to loop `count` times (0: forever).
pub open spec fn loop_extension(count: u16) -> Seq<u8> {
    seq![0x21u8, 0xFFu8, 11u8, 0x4Eu8, 0x45u8, 0x54u8, 0x53u8, 0x43u8, 0x41u8, 0x50u8, 0x45u8,
        0x32u8, 0x2Eu8, 0x30u8, 3u8, 1u8] + le16(count as int) + seq![0u8]
}

/// The bytes that `gif::Repeat` value `repeat` adds as an extension.
pub open spec fn repeat_extension(repeat: gif::Repeat) -> Seq<u8> {
    match repeat {
        gif::Repeat::Finite(n) => if n == 0 { Seq::empty() } else { loop_extension(n) },
        gif::Repeat::Infinite => loop_extension(0),
    }
}

/// One frame record: a graphic control extension (disposal "keep", no
/// transparency, `delay` hundredths of a second), an image descriptor covering
/// the whole screen with no local color table, and the image data.
pub open spec fn frame_record(width: u16, height: u16, delay: u16, indices: Seq<u8>) -> Seq<u8> {
    frame_head(width, height, delay) + lzw_image_data(indices)
}

/// The graphic control extension and image descriptor of a frame record.
pub open spec fn frame_head(width: u16, height: u16, delay: u16) -> Seq<u8> {
    seq![0x21u8, 0xF9u8, 4u8, 4u8] + le16(delay as int) + seq![0u8, 0u8]
        + seq![0x2Cu8, 0u8, 0u8, 0u8, 0u8] + le16(width as int) + le16(height as int) + seq![0u8]
}

/// The records of frames `0..n`, in order.
pub open spec fn frame_records(width: u16, height: u16, delay: u16, frames: Seq<Seq<u8>>, n: int) -> Seq<u8>
    decreases n,
{
    if n <= 0 {
        Seq::empty()
    } else {
        frame_records(width, height, delay, frames, n - 1) + frame_record(width, height, delay, frames[n - 1])
    }
}

/// The byte that ends every file.
pub open spec fn gif_trailer() -> u8 {
    0x3B
}

/// A whole animation: header and global palette, loop extension, one record per frame, trailer.
pub open spec fn gif_file(width: u16, height: u16, palette: Seq<u8>, loop_count: u16, delay: u16, frames: Seq<Seq<u8>>) -> Seq<u8> {
    screen_header(width, height, palette) + loop_extension(loop_count)
        + frame_records(width, height, delay, frames, frames.len() as int) + seq![gif_trailer()]
}

/// Relies on `gif::Encoder::new`: it writes the signature, the logical screen
/// descriptor and the global color table at once, and fails only when the
/// table has more than 256 colors (writing into a `Vec` does not fail).
#[verifier::external_body]
fn encoder_new(width: u16, height: u16, palette: &[u8]) -> (r: Result<GifWriter, gif::EncodingError>)
    ensures
        r is Ok <==> palette@.len() / 3 <= 256,
        r matches Ok(w) ==> gif_written(w) == screen_header(width, height, palette@),
        r matches Ok(w) ==> gif_has_table(w) == (palette@.len() / 3 >= 1),
{
    match gif::Encoder::new(Vec::new(), width, height, palette) {
        Ok(encoder) => Ok(GifWriter { encoder }),
        Err(err) => Err(err),
    }
}

/// Relies on `gif::Encoder::set_repeat`: it appends the NETSCAPE2.0 loop
/// extension, or nothing for `Finite(0)`.
#[verifier::external_body]
fn encoder_set_repeat(e: &mut GifWriter, repeat: gif::Repeat) -> (r: Result<(), gif::EncodingError>)
    ensures
        r is Ok,
        gif_written(*final(e)) == gif_written(*old(e)) + repeat_extension(repeat),
        gif_has_table(*final(e)) == gif_has_table(*old(e)),
{
    e.encoder.set_repeat(repeat)
}

/// Relies on `gif::Frame::from_indexed_pixels` (a frame over the global
/// palette, disposal "keep") and `gif::Encoder::write_frame`, which appends
/// the frame's control extension, image descriptor and compressed data. It
/// fails only for want of a global table (or when memory runs out, which this
/// library treats as every allocation is treated: as not happening).
#[verifier::external_body]
fn encoder_write_indexed_frame(
    e: &mut GifWriter,
    width: u16,
    height: u16,
    indices: &[u8],
    delay: u16,
) -> (r: Result<(), gif::EncodingError>)
    requires
        indices@.len() == width as int * height as int,
    ensures
        gif_has_table(*old(e)) ==> r is Ok,
        gif_has_table(*final(e)) == gif_has_table(*old(e)),
        r is Ok ==> gif_written(*final(e)) == gif_written(*old(e)) + frame_head(width, height, delay)
            + lzw_image_data(indices@),
{
    let mut frame = gif::Frame::from_indexed_pixels(width, height, indices, None);
    frame.delay = delay;
    e.encoder.write_frame(&frame)
}

/// Relies on `gif::Encoder::into_inner`: it appends the trailer and hands
/// back the buffer.
#[verifier::external_body]
fn encoder_finish(e: GifWriter) -> (r: Result<Vec<u8>, std::io::Error>)
    ensures
        r is Ok,
        r matches Ok(v) ==> v@ == gif_written(e) + seq![gif_trailer()],
{
    e.encoder.into_inner()
}

/// Container options.
#[derive(Debug, Clone, Copy, PartialEq, Eq, Structural)]
pub struct GifOptions {
    pub width: u16,
    pub height: u16,
    pub frame_count: u16,
    /// Frames per second; each frame is shown `100 / fps` hundredths of a second.
    pub fps: u16,
    /// Number of loops; 0 loops forever.
    pub loop_count: u16,
    pub optimize: bool,
}

impl Default for GifOptions {
    fn default() -> (r: GifOptions)
        ensures
            r == (GifOptions { width: 256, height: 256, frame_count: 256, fps: 30, loop_count: 0, optimize: true }),
    {
        GifOptions { width: 256, height: 256, frame_count: 256, fps: 30, loop_count: 0, optimize: true }
    }
}

/// A quantized frame: one palette index per pixel, and a palette of colors
/// packed as `0xRRGGBBAA`.
#[derive(Debug, Clone)]
pub struct QuantizeResult {
    pub indices: Vec<u8>,
    pub palette: Vec<u32>,
    pub width: u32,
    pub height: u32,
}

/// Display time of one frame in hundredths of a second, rounded down
/// (0 when `fps` exceeds 100).
pub open spec fn frame_delay(fps: u16) -> u16 {
    (100int / (fps as int)) as u16
}

/// The RGB bytes of a packed `0xRRGGBBAA` color; alpha is dropped.
pub open spec fn rgb_of(c: u32) -> Seq<u8> {
    seq![(c as int / 0x100_0000) as u8, ((c as int / 0x1_0000) % 256) as u8, ((c as int / 256) % 256) as u8]
}

/// The RGB bytes of the first `n` colors.
pub open spec fn palette_rgb(palette: Seq<u32>, n: int) -> Seq<u8>
    decreases n,
{
    if n <= 0 {
        Seq::empty()
    } else {
        palette_rgb(palette, n - 1) + rgb_of(palette[n - 1])
    }
}

/// Number of entries once a palette of `n` colors is padded to a power of two (at least 2).
pub open spec fn padded_count(n: int) -> int {
    table_entries(table_flag(n))
}

/// The global color table written for `palette`: its RGB triples, then black
/// entries up to the next power of two.
pub open spec fn padded_palette(palette: Seq<u32>) -> Seq<u8> {
    palette_rgb(palette, palette.len() as int) + zeros(3 * (padded_count(palette.len() as int) - palette.len()))
}

/// The indices of each frame.
pub open spec fn frame_indices(frames: Seq<QuantizeResult>) -> Seq<Seq<u8>> {
    Seq::new(frames.len(), |i: int| frames[i].indices@)
}

/// Each frame has the declared size and one index per pixel.
pub open spec fn frames_match(frames: Seq<QuantizeResult>, options: GifOptions) -> bool {
    forall|i: int| 0 <= i < frames.len() ==> {
        &&& (#[trigger] frames[i]).width == options.width as u32
        &&& frames[i].height == options.height as u32
        &&& frames[i].indices@.len() == options.width as int * options.height as int
    }
}

/// The views of a list of byte vectors.
pub open spec fn byte_views(frames: Seq<Vec<u8>>) -> Seq<Seq<u8>> {
    Seq::new(frames.len(), |i: int| frames[i]@)
}

fn padded_count_of(n: usize) -> (r: usize)
    requires
        n <= 256,
    ensures
        r as int == padded_count(n as int),
        n <= r <= 256,
{
    proof {
        reveal_with_fuel(table_entries, 8);
    }
    if n <= 2 {
        2
    } else if n <= 4 {
        4
    } else if n <= 8 {
        8
    } else if n <= 16 {
        16
    } else if n <= 32 {
        32
    } else if n <= 64 {
        64
    } else if n <= 128 {
        128
    } else {
        256
    }
}

/// The global color table bytes for a palette of packed colors.
pub fn palette_to_rgb(palette: &Vec<u32>) -> (r: Vec<u8>)
    requires
        palette@.len() <= 256,
    ensures
        r@ == padded_palette(palette@),
{
    let mut out: Vec<u8> = Vec::new();
    let mut i: usize = 0;
    while i < palette.len()
        invariant
            i <= palette@.len() <= 256,
            out@ == palette_rgb(palette@, i as int),
        decreases palette@.len() - i,
    {
        let c = palette[i];
        out.push((c / 0x100_0000) as u8);
        out.push(((c / 0x1_0000) % 256) as u8);
        out.push(((c / 256) % 256) as u8);
        proof {
            assert(out@ =~= palette_rgb(palette@, i as int) + rgb_of(palette@[i as int]));
        }
        i = i + 1;
    }
    let total = padded_count_of(palette.len());
    let mut j: usize = palette.len();
    while j < total
        invariant
            palette@.len() <= j <= total <= 256,
            out@ == palette_rgb(palette@, palette@.len() as int) + zeros(3 * (j - palette@.len())),
        decreases total - j,
    {
        out.push(0);
        out.push(0);
        out.push(0);
        proof {
            assert(out@ =~= palette_rgb(palette@, palette@.len() as int) + zeros(3 * (j + 1 - palette@.len())));
        }
        j = j + 1;
    }
    out
}

/// Writes a whole animation with the global color table `palette` (RGB
/// triples), looping `loop_count` times (0: forever), each frame shown
/// `delay` hundredths of a second.
pub fn write_animation(
    width: u16,
    height: u16,
    palette: &[u8],
    loop_count: u16,
    delay: u16,
    frames: &Vec<Vec<u8>>,
) -> (r: Result<Vec<u8>, ProcessorError>)
    requires
        forall|i: int| 0 <= i < frames@.len() ==> (#[trigger] frames@[i])@.len() == width as int * height as int,
    ensures
        palette@.len() / 3 > 256 ==> r == Err::<Vec<u8>, ProcessorError>(ProcessorError::EncodingError),
        1 <= palette@.len() / 3 <= 256 ==> r is Ok,
        r matches Ok(bytes) ==> bytes@ == gif_file(width, height, palette@, loop_count, delay, byte_views(frames@)),
        r matches Err(e) ==> e == ProcessorError::EncodingError,
{
    if palette.len() / 3 > 256 {
        return Err(ProcessorError::EncodingError);
    }
    let mut writer = match encoder_new(width, height, palette) {
        Ok(w) => w,
        Err(_) => { return Err(ProcessorError::EncodingError); },
    };
    let repeat = if loop_count == 0 { gif::Repeat::Infinite } else { gif::Repeat::Finite(loop_count) };
    let _ = encoder_set_repeat(&mut writer, repeat);
    let ghost head = screen_header(width, height, palette@) + loop_extension(loop_count);
    assert(gif_written(writer) == head);
    let mut i: usize = 0;
    while i < frames.len()
        invariant
            i <= frames@.len(),
            forall|j: int| 0 <= j < frames@.len() ==> (#[trigger] frames@[j])@.len() == width as int * height as int,
            gif_written(writer) == head + frame_records(width, height, delay, byte_views(frames@), i as int),
            gif_has_table(writer) == (palette@.len() / 3 >= 1),
        decreases frames@.len() - i,
    {
        let ok = encoder_write_indexed_frame(&mut writer, width, height, frames[i].as_slice(), delay);
        if ok.is_err() {
            return Err(ProcessorError::EncodingError);
        }
        proof {
            assert(byte_views(frames@)[i as int] == frames@[i as int]@);
            assert(gif_written(writer) =~= head + frame_records(width, height, delay, byte_views(frames@), i + 1));
        }
        i = i + 1;
    }
    match encoder_finish(writer) {
        Ok(bytes) => {
            assert(byte_views(frames@).len() == frames@.len());
            Ok(bytes)
        },
        Err(_) => Err(ProcessorError::EncodingError),
    }
}

/// Encodes quantized frames as one animation over the first frame's palette
/// (per-frame palettes are not written: later frames use the global table).
pub fn encode_gif(quantized_frames: Vec<QuantizeResult>, options: &GifOptions) -> (r: Result<Vec<u8>, ProcessorError>)
    ensures
        quantized_frames@.len() == 0 || options.fps == 0
            ==> r == Err::<Vec<u8>, ProcessorError>(ProcessorError::InvalidInput),
        quantized_frames@.len() > 0 && options.fps > 0 && !frames_match(quantized_frames@, *options)
            ==> r == Err::<Vec<u8>, ProcessorError>(ProcessorError::EncodingError),
        quantized_frames@.len() > 0 && options.fps > 0 && quantized_frames@[0].palette@.len() > 256
            ==> r == Err::<Vec<u8>, ProcessorError>(ProcessorError::EncodingError),
        quantized_frames@.len() > 0 && options.fps > 0 && frames_match(quantized_frames@, *options)
            && quantized_frames@[0].palette@.len() <= 256 ==> r is Ok,
        r matches Ok(bytes) ==> bytes@ == gif_file(
            options.width,
            options.height,
            padded_palette(quantized_frames@[0].palette@),
            options.loop_count,
            frame_delay(options.fps),
            frame_indices(quantized_frames@),
        ),
        r matches Err(e) ==> e == ProcessorError::InvalidInput || e == ProcessorError::EncodingError,
{
    if quantized_frames.len() == 0 || options.fps == 0 {
        return Err(ProcessorError::InvalidInput);
    }
    let mut indices: Vec<Vec<u8>> = Vec::new();
    proof { lemma_mul_le(options.width as int, options.height as int, 0xFFFF, 0xFFFF); }
    let pixels: u64 = (options.width as u64) * (options.height as u64);
    let mut i: usize = 0;
    while i < quantized_frames.len()
        invariant
            quantized_frames@.len() > 0, options.fps > 0,
            pixels == options.width as int * options.height as int,
            i <= quantized_frames@.len(),
            frames_match(quantized_frames@.subrange(0, i as int), *options),
            indices@.len() == i,
            forall|j: int| 0 <= j < i ==> (#[trigger] indices@[j])@ == quantized_frames@[j].indices@,
        decreases quantized_frames@.len() - i,
    {
        let frame = &quantized_frames[i];
        if frame.width != options.width as u32 || frame.height != options.height as u32
            || frame.indices.len() as u64 != pixels {
            proof {
                assert(!frames_match(quantized_frames@, *options)) by {
                    let q = quantized_frames@[i as int];
                    assert(q == quantized_frames@[i as int]);
                }
            }
            return Err(ProcessorError::EncodingError);
        }
        indices.push(frame.indices.clone());
        proof {
            assert(frames_match(quantized_frames@.subrange(0, i + 1), *options)) by {
                assert forall|j: int| 0 <= j < i + 1 implies {
                    &&& (#[trigger] quantized_frames@.subrange(0, i + 1)[j]).width == options.width as u32
                    &&& quantized_frames@.subrange(0, i + 1)[j].height == options.height as u32
                    &&& quantized_frames@.subrange(0, i + 1)[j].indices@.len() == options.width as int * options.height as int
                } by {
                    if j < i {
                        assert(quantized_frames@.subrange(0, i as int)[j] == quantized_frames@[j]);
                    }
                }
            }
        }
        i = i + 1;
    }
    assert(quantized_frames@.subrange(0, i as int) =~= quantized_frames@);
    let first_palette = &quantized_frames[0].palette;
    if first_palette.len() > 256 {
        return Err(ProcessorError::EncodingError);
    }
    let palette = palette_to_rgb(first_palette);
    let delay = 100 / options.fps;
    proof {
        assert(byte_views(indices@) =~= frame_indices(quantized_frames@));
        assert(1 <= palette@.len() / 3 <= 256) by {
            lemma_padded_palette_len(quantized_frames@[0].palette@);
            reveal_with_fuel(table_entries, 8);
        }
    }
    write_animation(options.width, options.height, palette.as_slice(), options.loop_count, delay, &indices)
}

/// The 256-entry table of the flat-buffer encoder: entry `i` is color `i`
/// of `palettes` read as `0x..RRGGBB`, or black past its end.
pub open spec fn flat_table(palettes: Seq<u32>) -> Seq<u8> {
    Seq::new(768, |k: int| {
        let i = k / 3;
        let c = if i < palettes.len() { palettes[i] as int } else { 0xFF00_0000int };
        if k % 3 == 0 {
            ((c / 0x1_0000) % 256) as u8
        } else if k % 3 == 1 {
            ((c / 0x100) % 256) as u8
        } else {
            (c % 256) as u8
        }
    })
}

/// Number of whole frames of `frame_size` indices that `len` indices hold,
/// capped at `frame_count`.
pub open spec fn whole_frames(len: int, frame_size: int, frame_count: int) -> int {
    if frame_size == 0 || len / frame_size >= frame_count { frame_count } else { len / frame_size }
}

/// The first `n` frames of `frame_size` indices each.
pub open spec fn flat_frames(indices: Seq<u8>, frame_size: int, n: int) -> Seq<Seq<u8>> {
    Seq::new(n as nat, |f: int| indices.subrange(f * frame_size, f * frame_size + frame_size))
}

/// Encodes square frames given as one flat index buffer over a 256-entry
/// table (colors `0x..RRGGBB`, missing ones black), looping forever. Frames
/// that the buffer does not hold in full are left out.
pub fn encode_gif89a(indices: &[u8], palettes: &[u32], frame_count: u32, side: u32, delay_cs: u16)
    -> (r: Result<Vec<u8>, ProcessorError>)
    ensures
        side > u16::MAX <==> r == Err::<Vec<u8>, ProcessorError>(ProcessorError::InvalidInput),
        side <= u16::MAX ==> r is Ok,
        r matches Err(e) ==> e == ProcessorError::InvalidInput || e == ProcessorError::EncodingError,
        r matches Ok(bytes) ==> bytes@ == gif_file(side as u16, side as u16, flat_table(palettes@), 0, delay_cs,
            flat_frames(indices@, side as int * side as int,
                whole_frames(indices@.len() as int, side as int * side as int, frame_count as int))),
{
    if side > u16::MAX as u32 {
        return Err(ProcessorError::InvalidInput);
    }
    let mut table: Vec<u8> = Vec::new();
    let mut i: usize = 0;
    while i < 256
        invariant
            i <= 256,
            table@.len() == 3 * i,
            forall|k: int| 0 <= k < 3 * i ==> #[trigger] table@[k] == flat_table(palettes@)[k],
        decreases 256 - i,
    {
        let color: u32 = if i < palettes.len() { palettes[i] } else { 0xFF00_0000 };
        let ghost before = table@;
        table.push(((color / 0x1_0000) % 256) as u8);
        table.push(((color / 0x100) % 256) as u8);
        table.push((color % 256) as u8);
        proof {
            assert forall|k: int| 0 <= k < 3 * (i + 1) implies #[trigger] table@[k] == flat_table(palettes@)[k] by {
                if k < 3 * i {
                    assert(table@[k] == before[k]);
                } else {
                    assert(k / 3 == i as int);
                }
            }
        }
        i = i + 1;
    }
    assert(table@ =~= flat_table(palettes@));
    proof { lemma_mul_le(side as int, side as int, 0xFFFF, 0xFFFF); }
    let frame_size: usize = (side as usize) * (side as usize);
    let len = indices.len();
    let count: usize = if frame_size == 0 || len / frame_size >= frame_count as usize {
        frame_count as usize
    } else {
        len / frame_size
    };
    proof {
        if frame_size > 0 {
            vstd::arithmetic::div_mod::lemma_fundamental_div_mod(len as int, frame_size as int);
            vstd::arithmetic::div_mod::lemma_mod_pos_bound(len as int, frame_size as int);
            assert(count as int * frame_size as int <= len) by (nonlinear_arith)
                requires count <= len / frame_size, frame_size > 0, frame_size * (len / frame_size) <= len;
        } else {
            assert(count as int * frame_size as int == 0) by (nonlinear_arith) requires frame_size == 0;
        }
    }
    let ghost all = flat_frames(indices@, frame_size as int, count as int);
    let mut frames: Vec<Vec<u8>> = Vec::new();
    let mut f: usize = 0;
    while f < count
        invariant
            f <= count,
            count as int * frame_size as int <= len,
            len == indices@.len(),
            frame_size == side as int * side as int,
            all == flat_frames(indices@, frame_size as int, count as int),
            frames@.len() == f,
            forall|j: int| 0 <= j < f ==> (#[trigger] frames@[j])@ == all[j],
            forall|j: int| 0 <= j < f ==> (#[trigger] frames@[j])@.len() == frame_size,
        decreases count - f,
    {
        proof {
            assert((f + 1) * frame_size <= count * frame_size) by (nonlinear_arith)
                requires f < count, frame_size >= 0;
            assert(f * frame_size + frame_size == (f + 1) * frame_size) by (nonlinear_arith);
            assert(0 <= f * frame_size) by (nonlinear_arith) requires f >= 0, frame_size >= 0;
        }
        let start = f * frame_size;
        let part = vstd::slice::slice_subrange(indices, start, start + frame_size);
        frames.push(vstd::slice::slice_to_vec(part));
        f = f + 1;
    }
    assert(byte_views(frames@) =~= all);
    write_animation(side as u16, side as u16, table.as_slice(), 0, delay_cs, &frames)
}

proof fn lemma_palette_rgb_len(palette: Seq<u32>, n: int)
    requires
        0 <= n <= palette.len(),
    ensures
        palette_rgb(palette, n).len() == 3 * n,
    decreases n,
{
    if n > 0 {
        lemma_palette_rgb_len(palette, n - 1);
    }
}

pub(crate) proof fn lemma_padded_palette_len(palette: Seq<u32>)
    requires
        palette.len() <= 256,
    ensures
        padded_palette(palette).len() == 3 * padded_count(palette.len() as int),
        padded_count(palette.len() as int) <= 256,
        palette.len() <= padded_count(palette.len() as int),
{
    lemma_palette_rgb_len(palette, palette.len() as int);
    reveal_with_fuel(table_entries, 8);
}

} // verus!
