//! Mapping working-space frames to palette indices: nearest-color search and
//! temporal error diffusion across the frames of a batch.

use vstd::prelude::*;
use crate::color::{OklabColor, floor_div};

verus! {

/// Largest magnitude of a carried error term; accumulation saturates there.
pub const ERROR_LIMIT: i64 = 0x10_0000_0000;

/// Full dithering strength, per mille.
pub const FULL_STRENGTH: u16 = 1000;

/// Squared Euclidean distance between the point `(l, a, b)` and a palette color.
pub open spec fn dist2(l: int, a: int, b: int, c: OklabColor) -> int {
    (l - c.l) * (l - c.l) + (a - c.a) * (a - c.a) + (b - c.b) * (b - c.b)
}

/// `idx` is the first palette entry at the smallest distance from `(l, a, b)`.
pub open spec fn is_nearest(palette: Seq<OklabColor>, l: int, a: int, b: int, idx: int) -> bool {
    &&& 0 <= idx < palette.len()
    &&& forall|j: int| 0 <= j < palette.len() ==> dist2(l, a, b, palette[idx]) <= #[trigger] dist2(l, a, b, palette[j])
    &&& forall|j: int| 0 <= j < idx ==> dist2(l, a, b, palette[idx]) < #[trigger] dist2(l, a, b, palette[j])
}

/// All palette entries differ.
pub open spec fn distinct_colors(palette: Seq<OklabColor>) -> bool {
    forall|i: int, j: int| 0 <= i < j < palette.len() ==> palette[i] != palette[j]
}

fn dist2_exec(l: i64, a: i64, b: i64, c: OklabColor) -> (r: i128)
    requires
        -ERROR_LIMIT * 2 <= l <= ERROR_LIMIT * 2,
        -ERROR_LIMIT * 2 <= a <= ERROR_LIMIT * 2,
        -ERROR_LIMIT * 2 <= b <= ERROR_LIMIT * 2,
    ensures
        r == dist2(l as int, a as int, b as int, c),
{
    let dl = l as i128 - c.l as i128;
    let da = a as i128 - c.a as i128;
    let db = b as i128 - c.b as i128;
    proof {
        assert(dl * dl <= 0x1_0000_0000_0000_0000_0000) by (nonlinear_arith)
            requires -0x40_0000_0000 <= dl <= 0x40_0000_0000;
        assert(da * da <= 0x1_0000_0000_0000_0000_0000) by (nonlinear_arith)
            requires -0x40_0000_0000 <= da <= 0x40_0000_0000;
        assert(db * db <= 0x1_0000_0000_0000_0000_0000) by (nonlinear_arith)
            requires -0x40_0000_0000 <= db <= 0x40_0000_0000;
        assert(dl * dl >= 0 && da * da >= 0 && db * db >= 0) by (nonlinear_arith);
    }
    dl * dl + da * da + db * db
}

/// Index of the first palette entry nearest to `(l, a, b)`.
pub fn nearest_index(palette: &[OklabColor], l: i64, a: i64, b: i64) -> (r: usize)
    requires
        palette@.len() > 0,
        -ERROR_LIMIT * 2 <= l <= ERROR_LIMIT * 2,
        -ERROR_LIMIT * 2 <= a <= ERROR_LIMIT * 2,
        -ERROR_LIMIT * 2 <= b <= ERROR_LIMIT * 2,
    ensures
        is_nearest(palette@, l as int, a as int, b as int, r as int),
{
    let mut best: usize = 0;
    let mut best_d = dist2_exec(l, a, b, palette[0]);
    let mut j: usize = 1;
    while j < palette.len()
        invariant
            1 <= j <= palette@.len(),
            -ERROR_LIMIT * 2 <= l <= ERROR_LIMIT * 2,
            -ERROR_LIMIT * 2 <= a <= ERROR_LIMIT * 2,
            -ERROR_LIMIT * 2 <= b <= ERROR_LIMIT * 2,
            best < j,
            best_d == dist2(l as int, a as int, b as int, palette@[best as int]),
            forall|q: int| 0 <= q < j ==> best_d <= #[trigger] dist2(l as int, a as int, b as int, palette@[q]),
            forall|q: int| 0 <= q < best ==> best_d < #[trigger] dist2(l as int, a as int, b as int, palette@[q]),
        decreases palette@.len() - j,
    {
        let d = dist2_exec(l, a, b, palette[j]);
        if d < best_d {
            best = j;
            best_d = d;
        }
        j = j + 1;
    }
    best
}

/// Maps every pixel to its nearest palette entry, without dithering (index 0
/// for an empty palette).
pub fn map_to_palette(pixels: &[OklabColor], palette: &[OklabColor]) -> (r: Vec<u8>)
    requires
        palette@.len() <= 256,
    ensures
        r@.len() == pixels@.len(),
        forall|i: int| 0 <= i < r@.len() ==> if palette@.len() == 0 {
            #[trigger] r@[i] == 0
        } else {
            is_nearest(palette@, pixels@[i].l as int, pixels@[i].a as int, pixels@[i].b as int, r@[i] as int)
        },
{
    let mut out: Vec<u8> = Vec::new();
    let mut i: usize = 0;
    while i < pixels.len()
        invariant
            palette@.len() <= 256,
            i <= pixels@.len(),
            out@.len() == i,
            forall|j: int| 0 <= j < i ==> if palette@.len() == 0 {
                #[trigger] out@[j] == 0
            } else {
                is_nearest(palette@, pixels@[j].l as int, pixels@[j].a as int, pixels@[j].b as int, out@[j] as int)
            },
        decreases pixels@.len() - i,
    {
        let p = pixels[i];
        if palette.len() == 0 {
            out.push(0);
        } else {
            let k = nearest_index(palette, p.l as i64, p.a as i64, p.b as i64);
            out.push(k as u8);
        }
        i = i + 1;
    }
    out
}

/// A pixel that is exactly a palette entry maps back to that entry when the
/// entries are distinct.
pub proof fn lemma_nearest_of_entry(palette: Seq<OklabColor>, k: int, idx: int)
    requires
        distinct_colors(palette),
        0 <= k < palette.len(),
        is_nearest(palette, palette[k].l as int, palette[k].a as int, palette[k].b as int, idx),
    ensures
        idx == k,
{
    let c = palette[k];
    let (l, a, b) = (c.l as int, c.a as int, c.b as int);
    assert(dist2(l, a, b, c) == 0);
    let e = palette[idx];
    assert(dist2(l, a, b, e) <= 0);
    assert((l - e.l) * (l - e.l) >= 0 && (a - e.a) * (a - e.a) >= 0 && (b - e.b) * (b - e.b) >= 0)
        by (nonlinear_arith);
    assert((l - e.l) * (l - e.l) == 0 ==> l == e.l) by (nonlinear_arith);
    assert((a - e.a) * (a - e.a) == 0 ==> a == e.a) by (nonlinear_arith);
    assert((b - e.b) * (b - e.b) == 0 ==> b == e.b) by (nonlinear_arith);
    assert(e == c);
    if idx < k {
        assert(palette[idx] != palette[k]);
    } else if idx > k {
        assert(palette[k] != palette[idx]);
    }
}

/// The first palette entry nearest to `x`.
pub open spec fn nearest_of(palette: Seq<OklabColor>, x: (int, int, int)) -> int {
    choose|i: int| is_nearest(palette, x.0, x.1, x.2, i)
}

proof fn lemma_nearest_unique(palette: Seq<OklabColor>, l: int, a: int, b: int, i: int)
    requires
        is_nearest(palette, l, a, b, i),
    ensures
        nearest_of(palette, (l, a, b)) == i,
{
    let j = nearest_of(palette, (l, a, b));
    assert(is_nearest(palette, l, a, b, j));
    if j < i {
        assert(dist2(l, a, b, palette[i]) < dist2(l, a, b, palette[j]));
    } else if i < j {
        assert(dist2(l, a, b, palette[j]) < dist2(l, a, b, palette[i]));
    }
}

/// An error term kept within the saturation limit.
pub open spec fn saturate(v: int) -> i64 {
    if v > ERROR_LIMIT {
        ERROR_LIMIT
    } else if v < -ERROR_LIMIT {
        (-ERROR_LIMIT) as i64
    } else {
        v as i64
    }
}

/// Adds `weight / 32` of `residual` to error term `pos`.
pub open spec fn add_share(e: Seq<i64>, pos: int, residual: int, weight: int) -> Seq<i64> {
    e.update(pos, saturate(e[pos] + (residual * weight) / 32))
}

/// Adds `weight / 32` of the residual to the three terms of the pixel whose
/// terms start at `pos`.
pub open spec fn spread_to(e: Seq<i64>, pos: int, res: (int, int, int), weight: int) -> Seq<i64> {
    add_share(add_share(add_share(e, pos, res.0, weight), pos + 1, res.1, weight), pos + 2, res.2, weight)
}

/// Distributes the residual of pixel `idx` of a `w` x `h` frame to its
/// unvisited neighbours: right 5/32, two right 3/32, below-left-two 2/32,
/// below-left 4/32, below 5/32 (neighbours outside the frame get nothing).
pub open spec fn diffuse_residual(e: Seq<i64>, idx: int, w: int, h: int, res: (int, int, int)) -> Seq<i64> {
    let x = idx % w;
    let y = idx / w;
    let base = 3 * idx;
    let e1 = if x + 1 < w { spread_to(e, base + 3, res, 5) } else { e };
    let e2 = if x + 2 < w { spread_to(e1, base + 6, res, 3) } else { e1 };
    let e3 = if y + 1 < h && x > 1 { spread_to(e2, base + 3 * w - 6, res, 2) } else { e2 };
    let e4 = if y + 1 < h && x > 0 { spread_to(e3, base + 3 * w - 3, res, 4) } else { e3 };
    if y + 1 < h { spread_to(e4, base + 3 * w, res, 5) } else { e4 }
}

/// Pixel `p` moved by `strength / 2000` of the error terms of pixel `idx`.
pub open spec fn perturbed(p: OklabColor, e: Seq<i64>, idx: int, strength: int) -> (int, int, int) {
    (
        p.l + (e[3 * idx] * strength) / 2000,
        p.a + (e[3 * idx + 1] * strength) / 2000,
        p.b + (e[3 * idx + 2] * strength) / 2000,
    )
}

/// Indices chosen for the first `k` pixels of a frame, in scan order, and the
/// error field after them, starting from field `e0`.
pub open spec fn diffusion_run(
    pixels: Seq<OklabColor>,
    palette: Seq<OklabColor>,
    w: int,
    h: int,
    strength: int,
    e0: Seq<i64>,
    k: int,
) -> (Seq<u8>, Seq<i64>)
    decreases k,
{
    if k <= 0 {
        (Seq::empty(), e0)
    } else {
        let (r, e) = diffusion_run(pixels, palette, w, h, strength, e0, k - 1);
        let i = k - 1;
        let c = nearest_of(palette, perturbed(pixels[i], e, i, strength));
        let q = palette[c];
        (
            r.push(c as u8),
            diffuse_residual(e, i, w, h, (pixels[i].l - q.l, pixels[i].a - q.a, pixels[i].b - q.b)),
        )
    }
}

/// The error field a frame starts from: the previous frame's field decayed
/// to 7/10, or zeros when there is none of the right size.
pub open spec fn starting_errors(prev: Option<Seq<i64>>, len: int) -> Seq<i64> {
    match prev {
        Some(p) => if p.len() == len {
            Seq::new(len as nat, |i: int| ((p[i] * 7) / 10) as i64)
        } else {
            Seq::new(len as nat, |i: int| 0i64)
        },
        None => Seq::new(len as nat, |i: int| 0i64),
    }
}

/// Indices of a `w` x `h` frame and the field it leaves, given the field
/// carried from the previous frame.
pub open spec fn dither_frame(
    prev: Option<Seq<i64>>,
    pixels: Seq<OklabColor>,
    palette: Seq<OklabColor>,
    w: int,
    h: int,
    strength: int,
) -> (Seq<u8>, Seq<i64>) {
    diffusion_run(pixels, palette, w, h, strength, starting_errors(prev, 3 * w * h), w * h)
}

/// Indices of the frames `0..k` of a batch dithered in order from a fresh
/// ditherer, and the field left after them.
pub open spec fn dither_batch(
    frames: Seq<Seq<OklabColor>>,
    palette: Seq<OklabColor>,
    w: int,
    h: int,
    strength: int,
    k: int,
) -> (Seq<Seq<u8>>, Option<Seq<i64>>)
    decreases k,
{
    if k <= 0 {
        (Seq::empty(), None)
    } else {
        let (out, prev) = dither_batch(frames, palette, w, h, strength, k - 1);
        let (indices, field) = dither_frame(prev, frames[k - 1], palette, w, h, strength);
        (out.push(indices), Some(field))
    }
}

/// Runs are reproducible: two runs over the same frames from fresh
/// ditherers give the same indices, frame by frame.
pub proof fn lemma_fresh_runs_agree(
    frames: Seq<Seq<OklabColor>>,
    palette: Seq<OklabColor>,
    w: int,
    h: int,
    strength: int,
    first: Seq<Seq<u8>>,
    second: Seq<Seq<u8>>,
)
    requires
        first == dither_batch(frames, palette, w, h, strength, frames.len() as int).0,
        second == dither_batch(frames, palette, w, h, strength, frames.len() as int).0,
    ensures
        first == second,
{
}

/// Temporal error diffusion over the frames of one batch: see
/// `dither_frame`. At full strength a pixel is moved by half its carried
/// error; the field left by a frame is decayed before the next one.
pub struct TemporalDither {
    prev_error: Option<Vec<i64>>,
    frame_index: usize,
    strength: u16,
}

/// Every carried error term is within the saturation limit.
pub open spec fn errors_bounded(errors: Seq<i64>) -> bool {
    forall|i: int| 0 <= i < errors.len() ==> -ERROR_LIMIT <= #[trigger] errors[i] <= ERROR_LIMIT
}

impl TemporalDither {
    /// Number of frames dithered so far.
    pub closed spec fn frames_done(&self) -> int {
        self.frame_index as int
    }

    /// Dithering strength, per mille.
    pub closed spec fn strength_of(&self) -> int {
        self.strength as int
    }

    /// The error field carried from the previous frame, if any.
    pub closed spec fn carried(&self) -> Option<Seq<i64>> {
        match self.prev_error {
            Some(v) => Some(v@),
            None => None,
        }
    }

    pub closed spec fn wf(&self) -> bool {
        &&& self.strength <= FULL_STRENGTH
        &&& self.prev_error matches Some(e) ==> errors_bounded(e@)
    }

    /// A fresh ditherer at full strength.
    pub fn new() -> (r: TemporalDither)
        ensures
            r.wf(),
            r.frames_done() == 0,
            r.strength_of() == FULL_STRENGTH,
            r.carried() is None,
    {
        TemporalDither { prev_error: None, frame_index: 0, strength: FULL_STRENGTH }
    }

    /// A fresh ditherer with the given strength, per mille.
    pub fn with_strength(strength: u16) -> (r: TemporalDither)
        requires
            strength <= FULL_STRENGTH,
        ensures
            r.wf(),
            r.frames_done() == 0,
            r.strength_of() == strength,
            r.carried() is None,
    {
        TemporalDither { prev_error: None, frame_index: 0, strength }
    }

    /// Maps one frame of working colors to palette indices (`dither_frame`),
    /// carrying the field it leaves on to the next call.
    pub fn apply(&mut self, pixels: &[OklabColor], palette: &[OklabColor], width: usize, height: usize) -> (r: Vec<u8>)
        requires
            old(self).wf(),
            pixels@.len() >= width * height,
            width * height * 3 <= usize::MAX,
            1 <= palette@.len() <= 256,
        ensures
            final(self).wf(),
            final(self).strength_of() == old(self).strength_of(),
            r@ == dither_frame(old(self).carried(), pixels@, palette@, width as int, height as int,
                old(self).strength_of()).0,
            final(self).carried() == Some(dither_frame(old(self).carried(), pixels@, palette@, width as int,
                height as int, old(self).strength_of()).1),
            final(self).frames_done() == if old(self).frames_done() < usize::MAX {
                old(self).frames_done() + 1
            } else {
                old(self).frames_done()
            },
            r@.len() == width * height,
            forall|i: int| 0 <= i < r@.len() ==> (#[trigger] r@[i]) < palette@.len(),
            old(self).strength_of() == 0 ==> forall|i: int| 0 <= i < r@.len() ==> is_nearest(
                palette@,
                pixels@[i].l as int,
                pixels@[i].a as int,
                pixels@[i].b as int,
                #[trigger] r@[i] as int,
            ),
    {
        let n = width * height;
        let ghost start = starting_errors(self.carried(), 3 * (width * height));
        let mut errors: Vec<i64> = Vec::new();
        let mut k: usize = 0;
        while k < n * 3
            invariant
                n == width * height,
                n * 3 <= usize::MAX,
                k <= n * 3,
                errors@.len() == k,
                errors_bounded(errors@),
                start == starting_errors(self.carried(), 3 * n),
                forall|j: int| 0 <= j < k ==> #[trigger] errors@[j] == start[j],
                old(self).wf(),
                *self == *old(self),
            decreases n * 3 - k,
        {
            let mut e: i64 = 0;
            if let Some(prev) = &self.prev_error {
                if prev.len() == n * 3 {
                    e = floor_div(prev[k] as i128 * 7, 10) as i64;
                }
            }
            errors.push(e);
            k = k + 1;
        }
        assert(errors@ =~= start);
        let strength = self.strength;
        let ghost sp = strength as int;
        let mut result: Vec<u8> = Vec::new();
        let mut idx: usize = 0;
        while idx < n
            invariant
                n == width * height,
                n <= pixels@.len(),
                n * 3 <= usize::MAX,
                1 <= palette@.len() <= 256,
                strength <= FULL_STRENGTH,
                sp == strength,
                idx <= n,
                result@.len() == idx,
                errors@.len() == n * 3,
                errors_bounded(errors@),
                start == starting_errors(old(self).carried(), 3 * n),
                *self == *old(self),
                result@ == diffusion_run(pixels@, palette@, width as int, height as int, sp, start, idx as int).0,
                errors@ == diffusion_run(pixels@, palette@, width as int, height as int, sp, start, idx as int).1,
                forall|i: int| 0 <= i < idx ==> (#[trigger] result@[i]) < palette@.len(),
                strength == 0 ==> forall|i: int| 0 <= i < idx ==> is_nearest(
                    palette@,
                    pixels@[i].l as int,
                    pixels@[i].a as int,
                    pixels@[i].b as int,
                    #[trigger] result@[i] as int,
                ),
            decreases n - idx,
        {
            let ghost e_before = errors@;
            let ghost run_before = diffusion_run(pixels@, palette@, width as int, height as int, sp, start, idx as int);
            let chosen = dither_pixel(&mut errors, pixels, palette, idx, width, height, strength);
            result.push(chosen);
            proof {
                let run_after = diffusion_run(pixels@, palette@, width as int, height as int, sp, start, idx as int + 1);
                assert(result@ == run_after.0);
                assert(errors@ == run_after.1);
            }
            idx = idx + 1;
        }
        let ghost done = diffusion_run(pixels@, palette@, width as int, height as int, sp, start, n as int);
        assert(result@ == done.0 && errors@ == done.1);
        assert(n as int == width as int * height as int);
        assert(3 * n as int == 3 * (width as int) * (height as int)) by (nonlinear_arith)
            requires n as int == width as int * height as int;
        self.prev_error = Some(errors);
        if self.frame_index < usize::MAX {
            self.frame_index = self.frame_index + 1;
        }
        result
    }
}

pub(crate) proof fn lemma_grid(idx: int, w: int, h: int)
    requires
        0 <= idx < w * h,
        0 <= w, 0 <= h,
    ensures
        w > 0,
        0 <= idx % w < w,
        0 <= idx / w < h,
        idx % w + 1 < w ==> idx + 1 < w * h,
        idx % w + 2 < w ==> idx + 2 < w * h,
        idx / w + 1 < h ==> idx + w < w * h && w <= w * h,
{
    if w == 0 {
        assert(w * h == 0);
    }
    vstd::arithmetic::div_mod::lemma_fundamental_div_mod(idx, w);
    vstd::arithmetic::div_mod::lemma_mod_pos_bound(idx, w);
    let x = idx % w;
    let y = idx / w;
    assert(y >= 0) by (nonlinear_arith) requires idx >= 0, w > 0, idx == w * y + x, x < w;
    assert(y < h) by (nonlinear_arith) requires idx < w * h, w > 0, idx == w * y + x, x >= 0;
    assert(w * y + w <= w * h) by (nonlinear_arith) requires y < h, w > 0;
    assert(w <= w * h) by (nonlinear_arith) requires y < h, y >= 0, w > 0;
    assert(idx + w == w * (y + 1) + x) by (nonlinear_arith) requires idx == w * y + x;
    assert(y + 1 < h ==> w * (y + 1) + w <= w * h) by (nonlinear_arith) requires w > 0;
}

/// A coordinate moved by `strength / 2000` of a carried error term.
fn perturb(v: i32, err: i64, strength: u16) -> (r: i64)
    requires
        -ERROR_LIMIT <= err <= ERROR_LIMIT,
        strength <= FULL_STRENGTH,
    ensures
        r == v + (err * strength) / 2000,
        strength == 0 ==> r == v,
        -ERROR_LIMIT * 2 <= r <= ERROR_LIMIT * 2,
{
    proof {
        assert(-ERROR_LIMIT * 1000 <= err * strength <= ERROR_LIMIT * 1000) by (nonlinear_arith)
            requires -ERROR_LIMIT <= err <= ERROR_LIMIT, 0 <= strength <= 1000;
    }
    let q = floor_div(err as i128 * strength as i128, 2000);
    v as i64 + q as i64
}

/// Adds `weight / 32` of the residual `(el, ea, eb)` to the three error terms
/// starting at `pos`, saturating at the limit.
fn diffuse(errors: &mut Vec<i64>, pos: usize, el: i64, ea: i64, eb: i64, weight: i64)
    requires
        pos + 3 <= old(errors)@.len(),
        errors_bounded(old(errors)@),
        -0x1_0000_0000 <= el <= 0x1_0000_0000,
        -0x1_0000_0000 <= ea <= 0x1_0000_0000,
        -0x1_0000_0000 <= eb <= 0x1_0000_0000,
        0 <= weight <= 32,
    ensures
        final(errors)@ == spread_to(old(errors)@, pos as int, (el as int, ea as int, eb as int), weight as int),
        final(errors)@.len() == old(errors)@.len(),
        errors_bounded(final(errors)@),
{
    let len = errors.len();
    assert(pos + 3 <= len);
    add_term(errors, pos, el, weight);
    add_term(errors, pos + 1, ea, weight);
    add_term(errors, pos + 2, eb, weight);
}

fn add_term(errors: &mut Vec<i64>, pos: usize, residual: i64, weight: i64)
    requires
        pos < old(errors)@.len(),
        errors_bounded(old(errors)@),
        -0x1_0000_0000 <= residual <= 0x1_0000_0000,
        0 <= weight <= 32,
    ensures
        final(errors)@ == add_share(old(errors)@, pos as int, residual as int, weight as int),
        final(errors)@.len() == old(errors)@.len(),
        errors_bounded(final(errors)@),
{
    proof {
        assert(-0x20_0000_0000 <= residual * weight <= 0x20_0000_0000) by (nonlinear_arith)
            requires -0x1_0000_0000 <= residual <= 0x1_0000_0000, 0 <= weight <= 32;
    }
    let share = floor_div(residual as i128 * weight as i128, 32);
    let v = errors[pos] as i128 + share;
    let clamped: i64 = if v > ERROR_LIMIT as i128 {
        ERROR_LIMIT
    } else if v < -(ERROR_LIMIT as i128) {
        -ERROR_LIMIT
    } else {
        v as i64
    };
    errors.set(pos, clamped);
}

/// Chooses the index of pixel `idx` from its perturbed color and spreads its
/// residual over the error field.
fn dither_pixel(
    errors: &mut Vec<i64>,
    pixels: &[OklabColor],
    palette: &[OklabColor],
    idx: usize,
    width: usize,
    height: usize,
    strength: u16,
) -> (r: u8)
    requires
        idx < width * height,
        pixels@.len() >= width * height,
        old(errors)@.len() == 3 * (width * height),
        3 * (width * height) <= usize::MAX,
        errors_bounded(old(errors)@),
        1 <= palette@.len() <= 256,
        strength <= FULL_STRENGTH,
    ensures
        r as int == nearest_of(palette@, perturbed(pixels@[idx as int], old(errors)@, idx as int, strength as int)),
        (r as int) < palette@.len(),
        strength == 0 ==> is_nearest(palette@, pixels@[idx as int].l as int, pixels@[idx as int].a as int,
            pixels@[idx as int].b as int, r as int),
        final(errors)@ == diffuse_residual(old(errors)@, idx as int, width as int, height as int, (
            pixels@[idx as int].l - palette@[r as int].l,
            pixels@[idx as int].a - palette@[r as int].a,
            pixels@[idx as int].b - palette@[r as int].b,
        )),
        final(errors)@.len() == old(errors)@.len(),
        errors_bounded(final(errors)@),
{
    let pixel = pixels[idx];
    let base = idx * 3;
    let cl = perturb(pixel.l, errors[base], strength);
    let ca = perturb(pixel.a, errors[base + 1], strength);
    let cb = perturb(pixel.b, errors[base + 2], strength);
    let chosen = nearest_index(palette, cl, ca, cb);
    proof {
        lemma_nearest_unique(palette@, cl as int, ca as int, cb as int, chosen as int);
    }
    let near = palette[chosen];
    let el = pixel.l as i64 - near.l as i64;
    let ea = pixel.a as i64 - near.a as i64;
    let eb = pixel.b as i64 - near.b as i64;
    proof {
        assert(3 * (width as int * height as int) == 3 * width as int * height as int) by (nonlinear_arith);
    }
    diffuse_neighbours(errors, idx, width, height, el, ea, eb);
    chosen as u8
}

/// Spreads the residual of pixel `idx` to its unvisited neighbours.
fn diffuse_neighbours(errors: &mut Vec<i64>, idx: usize, width: usize, height: usize, el: i64, ea: i64, eb: i64)
    requires
        idx < width * height,
        old(errors)@.len() == 3 * width * height,
        3 * width * height <= usize::MAX,
        errors_bounded(old(errors)@),
        -0x1_0000_0000 <= el <= 0x1_0000_0000,
        -0x1_0000_0000 <= ea <= 0x1_0000_0000,
        -0x1_0000_0000 <= eb <= 0x1_0000_0000,
    ensures
        final(errors)@ == diffuse_residual(old(errors)@, idx as int, width as int, height as int,
            (el as int, ea as int, eb as int)),
        final(errors)@.len() == old(errors)@.len(),
        errors_bounded(final(errors)@),
{
    let ghost e0 = errors@;
    let ghost res = (el as int, ea as int, eb as int);
    proof {
        lemma_grid(idx as int, width as int, height as int);
        assert(3 * width * height == 3 * (width * height)) by (nonlinear_arith);
    }
    let base = idx * 3;
    let x = idx % width;
    let y = idx / width;
    let ghost (xi, yi, wi, hi, bi) = (x as int, y as int, width as int, height as int, 3 * (idx as int));
    let ghost e1 = if xi + 1 < wi { spread_to(e0, bi + 3, res, 5) } else { e0 };
    let ghost e2 = if xi + 2 < wi { spread_to(e1, bi + 6, res, 3) } else { e1 };
    let ghost e3 = if yi + 1 < hi && xi > 1 { spread_to(e2, bi + 3 * wi - 6, res, 2) } else { e2 };
    let ghost e4 = if yi + 1 < hi && xi > 0 { spread_to(e3, bi + 3 * wi - 3, res, 4) } else { e3 };
    if x + 1 < width {
        diffuse(errors, base + 3, el, ea, eb, 5);
    }
    assert(errors@ == e1);
    if x + 1 < width && x + 2 < width {
        diffuse(errors, base + 6, el, ea, eb, 3);
    }
    assert(errors@ == e2);
    if y + 1 < height {
        let below = base + width * 3;
        if x > 1 {
            diffuse(errors, below - 6, el, ea, eb, 2);
        }
        assert(errors@ == e3);
        if x > 0 {
            diffuse(errors, below - 3, el, ea, eb, 4);
        }
        assert(errors@ == e4);
        diffuse(errors, below, el, ea, eb, 5);
    }
}

/// Zero-strength dithering is idempotent: when every pixel of a frame is an
/// entry of a palette of distinct colors, each output index is the index of
/// that entry.
pub proof fn lemma_zero_strength_idempotent(
    palette: Seq<OklabColor>,
    indices: Seq<u8>,
    pixels: Seq<OklabColor>,
    out: Seq<u8>,
)
    requires
        distinct_colors(palette),
        pixels.len() == indices.len(),
        forall|i: int| 0 <= i < indices.len() ==> (#[trigger] indices[i]) < palette.len(),
        forall|i: int| 0 <= i < indices.len() ==> #[trigger] pixels[i] == palette[indices[i] as int],
        out.len() == pixels.len(),
        forall|i: int| 0 <= i < out.len() ==> is_nearest(
            palette, pixels[i].l as int, pixels[i].a as int, pixels[i].b as int, #[trigger] out[i] as int),
    ensures
        out == indices,
{
    assert forall|i: int| 0 <= i < out.len() implies #[trigger] out[i] == indices[i] by {
        assert(pixels[i] == palette[indices[i] as int]);
        lemma_nearest_of_entry(palette, indices[i] as int, out[i] as int);
    }
    assert(out =~= indices);
}

} // verus!
