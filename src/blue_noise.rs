//! Threshold dithering in RGB with a tiled 64x64 noise pattern: plain, shifted
//! per frame, or attenuated near edges. Strengths are per mille.

use vstd::prelude::*;
use crate::color::floor_div;
use crate::dither::lemma_grid;

verus! {

/// Side of the noise tile.
pub const NOISE_SIDE: usize = 64;

/// The noise pattern at row `i`, column `j` of the tile, in `0..256`.
pub open spec fn noise_at(i: int, j: int) -> int {
    (((i * 67 + j * 71) as u32 ^ ((i * 13) as u32 ^ (j * 17) as u32)) % 256) as int
}

/// The noise pattern value at row `i`, column `j` of the tile.
pub fn blue_noise_value(i: usize, j: usize) -> (r: u8)
    requires
        i < NOISE_SIDE, j < NOISE_SIDE,
    ensures
        r as int == noise_at(i as int, j as int),
{
    let a: u32 = (i as u32) * 67 + (j as u32) * 71;
    let b: u32 = ((i as u32) * 13) ^ ((j as u32) * 17);
    ((a ^ b) % 256) as u8
}

/// A channel moved by the noise: `(2 * noise - 255) * strength / 2000`, kept
/// within the byte range.
pub open spec fn dithered_channel(v: u8, noise: int, strength: int) -> int {
    let t = v as int + ((2 * noise - 255) * strength) / 2000;
    if t < 0 { 0 } else if t > 255 { 255 } else { t }
}

fn dither_channel(v: u8, noise: u8, strength: u16) -> (r: u8)
    requires
        strength <= 1000,
    ensures
        r as int == dithered_channel(v, noise as int, strength as int),
{
    proof {
        assert(-255 * 1000 <= (2 * noise - 255) * strength <= 255 * 1000) by (nonlinear_arith)
            requires 0 <= noise <= 255, 0 <= strength <= 1000;
    }
    let delta = floor_div((2 * (noise as i128) - 255) * (strength as i128), 2000);
    let t = v as i128 + delta;
    if t < 0 {
        0
    } else if t > 255 {
        255
    } else {
        t as u8
    }
}

/// Squared RGB distance between `(r, g, b)` and a palette entry (alpha ignored).
pub open spec fn rgb_dist2(r: int, g: int, b: int, p: [u8; 4]) -> int {
    (r - p[0]) * (r - p[0]) + (g - p[1]) * (g - p[1]) + (b - p[2]) * (b - p[2])
}

/// `idx` is the first palette entry at the smallest RGB distance from `(r, g, b)`.
pub open spec fn is_nearest_rgb(palette: Seq<[u8; 4]>, r: int, g: int, b: int, idx: int) -> bool {
    &&& 0 <= idx < palette.len()
    &&& forall|j: int| 0 <= j < palette.len() ==> rgb_dist2(r, g, b, palette[idx]) <= #[trigger] rgb_dist2(r, g, b, palette[j])
    &&& forall|j: int| 0 <= j < idx ==> rgb_dist2(r, g, b, palette[idx]) < #[trigger] rgb_dist2(r, g, b, palette[j])
}

/// The index chosen for `(r, g, b)`: the nearest entry, or 0 for an empty palette.
pub open spec fn chosen_index(palette: Seq<[u8; 4]>, r: int, g: int, b: int, idx: int) -> bool {
    if palette.len() == 0 { idx == 0 } else { is_nearest_rgb(palette, r, g, b, idx) }
}

fn rgb_dist2_exec(r: u8, g: u8, b: u8, p: [u8; 4]) -> (d: i32)
    ensures
        d == rgb_dist2(r as int, g as int, b as int, p),
{
    let dr = r as i32 - p[0] as i32;
    let dg = g as i32 - p[1] as i32;
    let db = b as i32 - p[2] as i32;
    proof {
        assert(0 <= dr * dr <= 65025 && 0 <= dg * dg <= 65025 && 0 <= db * db <= 65025) by (nonlinear_arith)
            requires -255 <= dr <= 255, -255 <= dg <= 255, -255 <= db <= 255;
    }
    dr * dr + dg * dg + db * db
}

/// Index of the first palette entry nearest to the pixel in RGB (alpha
/// ignored); 0 when the palette is empty.
pub fn find_nearest_color(pixel: &[u8; 4], palette: &[[u8; 4]]) -> (r: usize)
    ensures
        chosen_index(palette@, pixel[0] as int, pixel[1] as int, pixel[2] as int, r as int),
{
    if palette.len() == 0 {
        return 0;
    }
    let (pr, pg, pb) = (pixel[0], pixel[1], pixel[2]);
    let mut best: usize = 0;
    let mut best_d = rgb_dist2_exec(pr, pg, pb, palette[0]);
    let mut j: usize = 1;
    while j < palette.len()
        invariant
            1 <= j <= palette@.len(),
            best < j,
            best_d == rgb_dist2(pr as int, pg as int, pb as int, palette@[best as int]),
            forall|q: int| 0 <= q < j ==> best_d <= #[trigger] rgb_dist2(pr as int, pg as int, pb as int, palette@[q]),
            forall|q: int| 0 <= q < best ==> best_d < #[trigger] rgb_dist2(pr as int, pg as int, pb as int, palette@[q]),
        decreases palette@.len() - j,
    {
        let d = rgb_dist2_exec(pr, pg, pb, palette[j]);
        if d < best_d {
            best = j;
            best_d = d;
        }
        j = j + 1;
    }
    best
}

/// The index produced for pixel `i` of an RGBA buffer, thresholded with noise
/// value `noise` at strength `strength`.
pub open spec fn noise_index(pixels: Seq<u8>, palette: Seq<[u8; 4]>, i: int, noise: int, strength: int, idx: int) -> bool {
    chosen_index(
        palette,
        dithered_channel(pixels[4 * i], noise, strength),
        dithered_channel(pixels[4 * i + 1], noise, strength),
        dithered_channel(pixels[4 * i + 2], noise, strength),
        idx,
    )
}

/// Thresholds one pixel and picks its palette entry.
fn noise_pixel(pixels: &[u8], i: usize, palette: &[[u8; 4]], noise: u8, strength: u16) -> (r: u8)
    requires
        4 * i + 3 < pixels@.len(),
        palette@.len() <= 256,
        strength <= 1000,
    ensures
        noise_index(pixels@, palette@, i as int, noise as int, strength as int, r as int),
{
    let len = pixels.len();
    let base = 4 * i;
    let dithered = [
        dither_channel(pixels[base], noise, strength),
        dither_channel(pixels[base + 1], noise, strength),
        dither_channel(pixels[base + 2], noise, strength),
        pixels[base + 3],
    ];
    let idx = find_nearest_color(&dithered, palette);
    idx as u8
}

/// Blue-noise dithering of one RGBA frame against an RGBA palette.
pub fn apply_blue_noise(pixels: &[u8], width: usize, height: usize, palette: &[[u8; 4]], strength: u16) -> (r: Vec<u8>)
    requires
        pixels@.len() >= 4 * width * height,
        palette@.len() <= 256,
        strength <= 1000,
    ensures
        r@.len() == width * height,
        forall|y: int, x: int| 0 <= y < height && 0 <= x < width ==> noise_index(
            pixels@, palette@, y * width + x, noise_at(y % 64, x % 64), strength as int,
            #[trigger] r@[y * width + x] as int),
{
    temporal_blue_noise(pixels, width, height, palette, strength, 0)
}

/// Blue-noise dithering whose pattern moves with the frame index (7 columns
/// and 11 rows per frame, wrapping on the tile).
pub fn temporal_blue_noise(
    pixels: &[u8],
    width: usize,
    height: usize,
    palette: &[[u8; 4]],
    strength: u16,
    frame_index: usize,
) -> (r: Vec<u8>)
    requires
        pixels@.len() >= 4 * width * height,
        palette@.len() <= 256,
        strength <= 1000,
    ensures
        r@.len() == width * height,
        forall|y: int, x: int| 0 <= y < height && 0 <= x < width ==> noise_index(
            pixels@, palette@, y * width + x,
            noise_at((y + (frame_index % 64) * 11 % 64) % 64, (x + (frame_index % 64) * 7 % 64) % 64),
            strength as int,
            #[trigger] r@[y * width + x] as int),
{
    let offset_x = (frame_index % 64) * 7 % 64;
    let offset_y = (frame_index % 64) * 11 % 64;
    let len = pixels.len();
    let mut result: Vec<u8> = Vec::new();
    let mut y: usize = 0;
    while y < height
        invariant
            pixels@.len() >= 4 * width * height,
            len == pixels@.len(),
            palette@.len() <= 256,
            strength <= 1000,
            offset_x < 64, offset_y < 64,
            offset_x == (frame_index % 64) * 7 % 64,
            offset_y == (frame_index % 64) * 11 % 64,
            y <= height,
            result@.len() == y * width,
            forall|yy: int, x: int| 0 <= yy < y && 0 <= x < width ==> noise_index(
                pixels@, palette@, yy * width + x,
                noise_at((yy + offset_y) % 64, (x + offset_x) % 64),
                strength as int,
                #[trigger] result@[yy * width + x] as int),
        decreases height - y,
    {
        let mut x: usize = 0;
        while x < width
            invariant
                pixels@.len() >= 4 * width * height,
                len == pixels@.len(),
                palette@.len() <= 256,
                strength <= 1000,
                offset_x < 64, offset_y < 64,
                y < height,
                x <= width,
                result@.len() == y * width + x,
                forall|yy: int, xx: int| 0 <= yy < y && 0 <= xx < width ==> noise_index(
                    pixels@, palette@, yy * width + xx,
                    noise_at((yy + offset_y) % 64, (xx + offset_x) % 64),
                    strength as int,
                    #[trigger] result@[yy * width + xx] as int),
                forall|xx: int| 0 <= xx < x ==> noise_index(
                    pixels@, palette@, y * width + xx,
                    noise_at((y + offset_y) % 64, (xx + offset_x) % 64),
                    strength as int,
                    #[trigger] result@[y * width + xx] as int),
            decreases width - x,
        {
            proof { lemma_pixel_in_frame(y as int, x as int, width as int, height as int); }
            let noise = blue_noise_value((y + offset_y) % 64, (x + offset_x) % 64);
            let i = y * width + x;
            let v = noise_pixel(pixels, i, palette, noise, strength);
            let ghost before = result@;
            result.push(v);
            proof {
                assert forall|yy: int, xx: int| 0 <= yy < y && 0 <= xx < width implies noise_index(
                    pixels@, palette@, yy * width + xx,
                    noise_at((yy + offset_y) % 64, (xx + offset_x) % 64),
                    strength as int,
                    #[trigger] result@[yy * width + xx] as int) by {
                    lemma_row_before(yy, xx, y as int, width as int);
                    assert(result@[yy * width + xx] == before[yy * width + xx]);
                }
            }
            x = x + 1;
        }
        proof {
            assert forall|yy: int, xx: int| 0 <= yy < y + 1 && 0 <= xx < width implies noise_index(
                pixels@, palette@, yy * width + xx,
                noise_at((yy + offset_y) % 64, (xx + offset_x) % 64),
                strength as int,
                #[trigger] result@[yy * width + xx] as int) by {
                if yy == y {
                }
            }
            assert((y + 1) * width == y * width + width) by (nonlinear_arith);
        }
        y = y + 1;
    }
    assert(height * width == width * height) by (nonlinear_arith);
    result
}

proof fn lemma_pixel_in_frame(y: int, x: int, w: int, h: int)
    requires
        0 <= y < h, 0 <= x < w,
    ensures
        0 <= y * w + x < w * h,
        4 * (y * w + x) + 3 < 4 * w * h,
        y <= y * w + x, x <= y * w + x,
{
    assert(y <= y * w) by (nonlinear_arith) requires 0 <= y, 1 <= w;
    assert(y * w + x < w * h) by (nonlinear_arith) requires 0 <= y < h, 0 <= x < w;
    assert(0 <= y * w) by (nonlinear_arith) requires 0 <= y, 0 <= w;
    assert(4 * w * h == 4 * (w * h)) by (nonlinear_arith);
}

proof fn lemma_row_before(yy: int, xx: int, y: int, w: int)
    requires
        0 <= yy < y, 0 <= xx < w,
    ensures
        yy * w + xx < y * w,
{
    assert(yy * w + xx < y * w) by (nonlinear_arith) requires 0 <= yy < y, 0 <= xx < w;
}

/// `r` is the integer square root of `n`, rounded down.
pub open spec fn is_sqrt(n: int, r: int) -> bool {
    0 <= r && r * r <= n < (r + 1) * (r + 1)
}

/// The integer square root of `n`, rounded down.
pub open spec fn sqrt_floor(n: int) -> int {
    choose|r: int| is_sqrt(n, r)
}

proof fn lemma_sqrt_unique(n: int, r: int)
    requires
        is_sqrt(n, r),
    ensures
        sqrt_floor(n) == r,
{
    let q = sqrt_floor(n);
    assert(is_sqrt(n, q));
    if q < r {
        assert((q + 1) * (q + 1) <= r * r) by (nonlinear_arith) requires 0 <= q, q + 1 <= r;
    } else if r < q {
        assert((r + 1) * (r + 1) <= q * q) by (nonlinear_arith) requires 0 <= r, r + 1 <= q;
    }
}

/// Integer square root by bisection.
fn isqrt(n: u64) -> (r: u64)
    requires
        n < 0x100_0000_0000_0000,
    ensures
        r as int == sqrt_floor(n as int),
        r < 0x1000_0000,
{
    let mut lo: u64 = 0;
    let mut hi: u64 = 0x1000_0000;
    while hi - lo > 1
        invariant
            lo < hi <= 0x1000_0000,
            lo * lo <= n,
            n < hi * hi,
        decreases hi - lo,
    {
        let mid = lo + (hi - lo) / 2;
        proof {
            assert(mid * mid <= 0x100_0000_0000_0000) by (nonlinear_arith) requires 0 <= mid <= 0x1000_0000;
        }
        if mid * mid <= n {
            lo = mid;
        } else {
            hi = mid;
        }
    }
    proof { lemma_sqrt_unique(n as int, lo as int); }
    lo
}

/// Luminance of pixel `(x, y)`, weights 299, 587, 114 (a thousand times the usual).
pub open spec fn luma(pixels: Seq<u8>, w: int, x: int, y: int) -> int {
    let i = 4 * (y * w + x);
    299 * pixels[i] + 587 * pixels[i + 1] + 114 * pixels[i + 2]
}

/// Horizontal Sobel response at `(x, y)`.
pub open spec fn sobel_x(p: Seq<u8>, w: int, x: int, y: int) -> int {
    luma(p, w, x + 1, y - 1) + 2 * luma(p, w, x + 1, y) + luma(p, w, x + 1, y + 1)
        - luma(p, w, x - 1, y - 1) - 2 * luma(p, w, x - 1, y) - luma(p, w, x - 1, y + 1)
}

/// Vertical Sobel response at `(x, y)`.
pub open spec fn sobel_y(p: Seq<u8>, w: int, x: int, y: int) -> int {
    luma(p, w, x - 1, y + 1) + 2 * luma(p, w, x, y + 1) + luma(p, w, x + 1, y + 1)
        - luma(p, w, x - 1, y - 1) - 2 * luma(p, w, x, y - 1) - luma(p, w, x + 1, y - 1)
}

/// Edge strength at `(x, y)` per mille: the Sobel gradient magnitude of the
/// luminance over 255, at most 1000; 0 on the border.
pub open spec fn edge_strength(p: Seq<u8>, w: int, h: int, x: int, y: int) -> int {
    if 1 <= x < w - 1 && 1 <= y < h - 1 {
        let gx = sobel_x(p, w, x, y);
        let gy = sobel_y(p, w, x, y);
        let m = sqrt_floor(gx * gx + gy * gy) / 255;
        if m > 1000 { 1000 } else { m }
    } else {
        0
    }
}

fn luma_exec(pixels: &[u8], w: usize, x: usize, y: usize) -> (r: i64)
    requires
        4 * (y * w + x) + 2 < pixels@.len(),
    ensures
        r == luma(pixels@, w as int, x as int, y as int),
        0 <= r <= 255000,
{
    let len = pixels.len();
    proof { assert(0 <= y * w) by (nonlinear_arith) requires y >= 0, w >= 0; }
    let len = pixels.len();
    proof { assert(0 <= y * w) by (nonlinear_arith) requires y >= 0, w >= 0; }
    let i = 4 * (y * w + x);
    299 * (pixels[i] as i64) + 587 * (pixels[i + 1] as i64) + 114 * (pixels[i + 2] as i64)
}

proof fn lemma_neighbour_in_frame(x: int, y: int, w: int, h: int, dx: int, dy: int)
    requires
        1 <= x < w - 1, 1 <= y < h - 1, -1 <= dx <= 1, -1 <= dy <= 1,
    ensures
        0 <= (y + dy) * w + (x + dx),
        4 * ((y + dy) * w + (x + dx)) + 3 < 4 * w * h,
{
    lemma_pixel_in_frame(y + dy, x + dx, w, h);
}

/// Edge strengths of a frame, per mille, one per pixel.
pub fn detect_edges(pixels: &[u8], width: usize, height: usize) -> (r: Vec<u16>)
    requires
        pixels@.len() == 4 * width * height,
    ensures
        r@.len() == width * height,
        forall|i: int| 0 <= i < r@.len() ==> #[trigger] r@[i] as int == edge_strength(
            pixels@, width as int, height as int, i % (width as int), i / (width as int)),
{
    let len = pixels.len();
    proof { assert(4 * width * height == 4 * (width * height)) by (nonlinear_arith); }
    let n = len / 4;
    let mut edges: Vec<u16> = Vec::new();
    let mut i: usize = 0;
    while i < n
        invariant
            len == pixels@.len(),
            len == 4 * width * height,
            n == width * height,
            i <= n,
            edges@.len() == i,
            forall|j: int| 0 <= j < i ==> #[trigger] edges@[j] as int == edge_strength(
                pixels@, width as int, height as int, j % (width as int), j / (width as int)),
        decreases n - i,
    {
        proof { lemma_grid(i as int, width as int, height as int); }
        let x = i % width;
        let y = i / width;
        let mut e: u16 = 0;
        if 1 <= x && x + 1 < width && 1 <= y && y + 1 < height {
            proof {
                let (xi, yi, wi, hi) = (x as int, y as int, width as int, height as int);
                lemma_neighbour_in_frame(xi, yi, wi, hi, -1, -1);
                lemma_neighbour_in_frame(xi, yi, wi, hi, -1, 0);
                lemma_neighbour_in_frame(xi, yi, wi, hi, -1, 1);
                lemma_neighbour_in_frame(xi, yi, wi, hi, 0, -1);
                lemma_neighbour_in_frame(xi, yi, wi, hi, 0, 1);
                lemma_neighbour_in_frame(xi, yi, wi, hi, 1, -1);
                lemma_neighbour_in_frame(xi, yi, wi, hi, 1, 0);
                lemma_neighbour_in_frame(xi, yi, wi, hi, 1, 1);
            }
            let gx = luma_exec(pixels, width, x + 1, y - 1) + 2 * luma_exec(pixels, width, x + 1, y)
                + luma_exec(pixels, width, x + 1, y + 1) - luma_exec(pixels, width, x - 1, y - 1)
                - 2 * luma_exec(pixels, width, x - 1, y) - luma_exec(pixels, width, x - 1, y + 1);
            let gy = luma_exec(pixels, width, x - 1, y + 1) + 2 * luma_exec(pixels, width, x, y + 1)
                + luma_exec(pixels, width, x + 1, y + 1) - luma_exec(pixels, width, x - 1, y - 1)
                - 2 * luma_exec(pixels, width, x, y - 1) - luma_exec(pixels, width, x + 1, y - 1);
            proof {
                assert(0 <= gx * gx <= 1_040_400_000_000) by (nonlinear_arith) requires -1_020_000 <= gx <= 1_020_000;
                assert(0 <= gy * gy <= 1_040_400_000_000) by (nonlinear_arith) requires -1_020_000 <= gy <= 1_020_000;
            }
            let m = isqrt((gx * gx + gy * gy) as u64) / 255;
            e = if m > 1000 { 1000 } else { m as u16 };
        }
        edges.push(e);
        i = i + 1;
    }
    edges
}

/// Noise strength at a pixel of edge strength `edge`: reduced by up to 70%.
pub open spec fn adaptive_strength(base: int, edge: int) -> int {
    (base * (1000 - (edge * 7) / 10)) / 1000
}

/// Blue-noise dithering whose strength drops near edges, which are found
/// once per frame with a luminance Sobel filter.
pub struct AdaptiveBlueNoise {
    edge_map: Vec<u16>,
    width: usize,
    height: usize,
}

impl AdaptiveBlueNoise {
    /// Edge strengths per pixel, per mille.
    pub closed spec fn edges(&self) -> Seq<u16> {
        self.edge_map@
    }

    pub closed spec fn frame_width(&self) -> int {
        self.width as int
    }

    pub closed spec fn frame_height(&self) -> int {
        self.height as int
    }

    /// One edge strength per pixel, none above 1000.
    pub closed spec fn wf(&self) -> bool {
        &&& self.edge_map@.len() == self.width * self.height
        &&& forall|i: int| 0 <= i < self.edge_map@.len() ==> #[trigger] self.edge_map@[i] <= 1000
    }

    /// Prepares the ditherer for a frame by measuring its edges.
    pub fn new(pixels: &[u8], width: usize, height: usize) -> (r: AdaptiveBlueNoise)
        requires
            pixels@.len() == 4 * width * height,
        ensures
            r.wf(),
            r.frame_width() == width,
            r.frame_height() == height,
            r.edges().len() == width * height,
            forall|i: int| 0 <= i < r.edges().len() ==> #[trigger] r.edges()[i] as int == edge_strength(
                pixels@, width as int, height as int, i % (width as int), i / (width as int)),
    {
        let edge_map = detect_edges(pixels, width, height);
        let r = AdaptiveBlueNoise { edge_map, width, height };
        assert forall|i: int| 0 <= i < r.edge_map@.len() implies #[trigger] r.edge_map@[i] <= 1000 by {
            assert(r.edge_map@[i] as int == edge_strength(pixels@, width as int, height as int,
                i % (width as int), i / (width as int)));
        }
        r
    }

    /// Dithers a frame of the measured size: the noise at each pixel is scaled
    /// by `adaptive_strength(base_strength, edge)`.
    pub fn apply(&self, pixels: &[u8], palette: &[[u8; 4]], base_strength: u16) -> (r: Vec<u8>)
        requires
            self.wf(),
            pixels@.len() >= 4 * self.frame_width() * self.frame_height(),
            palette@.len() <= 256,
            base_strength <= 1000,
        ensures
            r@.len() == self.edges().len(),
            forall|i: int| 0 <= i < r@.len() ==> noise_index(
                pixels@, palette@, i,
                noise_at((i / self.frame_width()) % 64, (i % self.frame_width()) % 64),
                adaptive_strength(base_strength as int, self.edges()[i] as int),
                #[trigger] r@[i] as int),
    {
        let n = self.edge_map.len();
        let w = self.width;
        let mut result: Vec<u8> = Vec::new();
        let mut i: usize = 0;
        while i < n
            invariant
                self.wf(),
                n == self.edges().len(),
                n == self.frame_width() * self.frame_height(),
                w == self.frame_width(),
                pixels@.len() >= 4 * self.frame_width() * self.frame_height(),
                palette@.len() <= 256,
                base_strength <= 1000,
                i <= n,
                result@.len() == i,
                forall|j: int| 0 <= j < i ==> noise_index(
                    pixels@, palette@, j,
                    noise_at((j / self.frame_width()) % 64, (j % self.frame_width()) % 64),
                    adaptive_strength(base_strength as int, self.edges()[j] as int),
                    #[trigger] result@[j] as int),
            decreases n - i,
        {
            proof {
                lemma_grid(i as int, w as int, self.frame_height());
                assert(4 * self.frame_width() * self.frame_height() == 4 * (self.frame_width() * self.frame_height()))
                    by (nonlinear_arith);
            }
            let edge = self.edge_map[i];
            let reduction: u64 = (edge as u64) * 7 / 10;
            let factor: u64 = if reduction > 1000 { 0 } else { 1000 - reduction };
            proof {
                assert(edge <= 1000);
                assert(reduction <= 700);
                assert((base_strength as u64) * factor <= 1000 * 1000) by (nonlinear_arith)
                    requires base_strength <= 1000, factor <= 1000;
            }
            let strength = ((base_strength as u64) * factor / 1000) as u16;
            let noise = blue_noise_value((i / w) % 64, (i % w) % 64);
            result.push(noise_pixel(pixels, i, palette, noise, strength));
            i = i + 1;
        }
        result
    }
}

/// The first three channels of all palette entries differ.
pub open spec fn distinct_rgb(palette: Seq<[u8; 4]>) -> bool {
    forall|i: int, j: int| 0 <= i < j < palette.len()
        ==> palette[i][0] != palette[j][0] || palette[i][1] != palette[j][1] || palette[i][2] != palette[j][2]
}

/// Zero-strength blue-noise dithering is idempotent: when the RGB of every
/// pixel is that of an entry of a palette with distinct colors, each output
/// index is that entry's, whatever the noise.
pub proof fn lemma_blue_noise_zero_strength_idempotent(
    palette: Seq<[u8; 4]>,
    indices: Seq<u8>,
    pixels: Seq<u8>,
    noise: Seq<int>,
    out: Seq<u8>,
)
    requires
        distinct_rgb(palette),
        pixels.len() == 4 * indices.len(),
        noise.len() == indices.len(),
        forall|i: int| 0 <= i < indices.len() ==> (#[trigger] indices[i]) < palette.len(),
        forall|i: int| 0 <= i < indices.len() ==> {
            &&& pixels[4 * i] == palette[indices[i] as int][0]
            &&& pixels[4 * i + 1] == palette[indices[i] as int][1]
            &&& pixels[4 * i + 2] == palette[indices[i] as int][2]
        },
        out.len() == indices.len(),
        forall|i: int| 0 <= i < out.len() ==> noise_index(pixels, palette, i, noise[i], 0, #[trigger] out[i] as int),
    ensures
        out == indices,
{
    assert forall|i: int| 0 <= i < out.len() implies #[trigger] out[i] == indices[i] by {
        let k = indices[i] as int;
        let e = palette[k];
        let (r, g, b) = (pixels[4 * i] as int, pixels[4 * i + 1] as int, pixels[4 * i + 2] as int);
        assert(dithered_channel(pixels[4 * i], noise[i], 0) == r);
        assert(dithered_channel(pixels[4 * i + 1], noise[i], 0) == g);
        assert(dithered_channel(pixels[4 * i + 2], noise[i], 0) == b);
        let o = out[i] as int;
        assert(is_nearest_rgb(palette, r, g, b, o));
        assert(rgb_dist2(r, g, b, e) == 0);
        let q = palette[o];
        assert(rgb_dist2(r, g, b, q) <= 0);
        assert((r - q[0]) * (r - q[0]) >= 0 && (g - q[1]) * (g - q[1]) >= 0 && (b - q[2]) * (b - q[2]) >= 0)
            by (nonlinear_arith);
        assert((r - q[0]) * (r - q[0]) == 0 ==> r == q[0]) by (nonlinear_arith);
        assert((g - q[1]) * (g - q[1]) == 0 ==> g == q[1]) by (nonlinear_arith);
        assert((b - q[2]) * (b - q[2]) == 0 ==> b == q[2]) by (nonlinear_arith);
        if o < k {
            assert(palette[o][0] != palette[k][0] || palette[o][1] != palette[k][1] || palette[o][2] != palette[k][2]);
        } else if o > k {
            assert(palette[k][0] != palette[o][0] || palette[k][1] != palette[o][1] || palette[k][2] != palette[o][2]);
        }
    }
    assert(out =~= indices);
}

} // verus!
