//! Palette construction by median cut in the working space.

use vstd::prelude::*;
use vstd::multiset::Multiset;
use crate::color::{OklabColor, floor_div};

verus! {

broadcast use {vstd::seq_lib::to_multiset_contains, vstd::seq_lib::to_multiset_len};

/// Coordinate `k` of a working color: 0 lightness, 1 and 2 the opponent axes.
pub open spec fn coord(c: OklabColor, k: int) -> int {
    if k == 0 {
        c.l as int
    } else if k == 1 {
        c.a as int
    } else {
        c.b as int
    }
}

/// Smallest coordinate `k` among the samples (0 for none).
pub open spec fn seq_min(s: Seq<OklabColor>, k: int) -> int
    decreases s.len(),
{
    if s.len() == 0 {
        0
    } else if s.len() == 1 {
        coord(s[0], k)
    } else {
        let m = seq_min(s.drop_last(), k);
        let v = coord(s.last(), k);
        if v < m { v } else { m }
    }
}

/// Largest coordinate `k` among the samples (0 for none).
pub open spec fn seq_max(s: Seq<OklabColor>, k: int) -> int
    decreases s.len(),
{
    if s.len() == 0 {
        0
    } else if s.len() == 1 {
        coord(s[0], k)
    } else {
        let m = seq_max(s.drop_last(), k);
        let v = coord(s.last(), k);
        if v > m { v } else { m }
    }
}

/// On every axis, `e` lies between the smallest and the largest sample.
pub open spec fn within_range(e: OklabColor, s: Seq<OklabColor>) -> bool {
    forall|k: int| 0 <= k < 3 ==> seq_min(s, k) <= #[trigger] coord(e, k) <= seq_max(s, k)
}

/// Sum of coordinate `k` over the samples.
pub open spec fn seq_sum(s: Seq<OklabColor>, k: int) -> int
    decreases s.len(),
{
    if s.len() == 0 {
        0
    } else {
        seq_sum(s.drop_last(), k) + coord(s.last(), k)
    }
}

/// The mean of the samples, each coordinate rounded down.
pub open spec fn mean_of(s: Seq<OklabColor>) -> OklabColor {
    OklabColor {
        l: (seq_sum(s, 0) / (s.len() as int)) as i32,
        a: (seq_sum(s, 1) / (s.len() as int)) as i32,
        b: (seq_sum(s, 2) / (s.len() as int)) as i32,
    }
}

proof fn lemma_contains_in_range(s: Seq<OklabColor>, e: OklabColor)
    requires
        s.contains(e),
    ensures
        within_range(e, s),
    decreases s.len(),
{
    assert forall|k: int| 0 <= k < 3 implies seq_min(s, k) <= #[trigger] coord(e, k) <= seq_max(s, k) by {
        lemma_contains_in_range_axis(s, e, k);
    }
}

proof fn lemma_contains_in_range_axis(s: Seq<OklabColor>, e: OklabColor, k: int)
    requires
        s.contains(e),
    ensures
        seq_min(s, k) <= coord(e, k) <= seq_max(s, k),
    decreases s.len(),
{
    let i = choose|i: int| 0 <= i < s.len() && s[i] == e;
    if s.len() > 1 && i < s.len() - 1 {
        assert(s.drop_last()[i] == e);
        lemma_contains_in_range_axis(s.drop_last(), e, k);
    }
}

/// The sum of a coordinate stays between `n * lo` and `n * hi`.
proof fn lemma_sum_bounds(s: Seq<OklabColor>, k: int, lo: int, hi: int)
    requires
        forall|j: int| 0 <= j < s.len() ==> lo <= #[trigger] coord(s[j], k) <= hi,
    ensures
        s.len() * lo <= seq_sum(s, k) <= s.len() * hi,
    decreases s.len(),
{
    if s.len() > 0 {
        let t = s.drop_last();
        assert forall|j: int| 0 <= j < t.len() implies lo <= #[trigger] coord(t[j], k) <= hi by {
            assert(t[j] == s[j]);
        }
        lemma_sum_bounds(t, k, lo, hi);
        let n = t.len() as int;
        assert(n * lo + lo == (n + 1) * lo && n * hi + hi == (n + 1) * hi) by (nonlinear_arith);
    }
}

/// The mean of non-empty samples lies in their range.
proof fn lemma_mean_in_range(s: Seq<OklabColor>, k: int, lo: int, hi: int, m: int)
    requires
        s.len() > 0,
        forall|j: int| 0 <= j < s.len() ==> lo <= #[trigger] coord(s[j], k) <= hi,
        s.len() * m <= seq_sum(s, k) < s.len() * m + s.len(),
    ensures
        lo <= m <= hi,
{
    lemma_sum_bounds(s, k, lo, hi);
    let n = s.len() as int;
    let t = seq_sum(s, k);
    assert(lo <= m) by (nonlinear_arith) requires n > 0, n * lo <= t, t < n * m + n;
    assert(m <= hi) by (nonlinear_arith) requires n > 0, n * m <= t, t <= n * hi;
}

/// All samples have one color.
pub open spec fn uniform(s: Seq<OklabColor>) -> bool {
    forall|i: int| 0 <= i < s.len() ==> #[trigger] s[i] == s[0]
}

/// The coordinates of `c` starting from axis `axis` and wrapping around.
pub open spec fn sort_key(c: OklabColor, axis: int) -> (int, int, int) {
    if axis == 0 {
        (c.l as int, c.a as int, c.b as int)
    } else if axis == 1 {
        (c.a as int, c.b as int, c.l as int)
    } else {
        (c.b as int, c.l as int, c.a as int)
    }
}

/// Lexicographic order on triples.
pub open spec fn key_le(x: (int, int, int), y: (int, int, int)) -> bool {
    x.0 < y.0 || (x.0 == y.0 && (x.1 < y.1 || (x.1 == y.1 && x.2 <= y.2)))
}

fn sort_key_of(c: &OklabColor, axis: u8) -> (r: (i32, i32, i32))
    ensures
        (r.0 as int, r.1 as int, r.2 as int) == sort_key(*c, axis as int),
{
    if axis == 0 {
        (c.l, c.a, c.b)
    } else if axis == 1 {
        (c.a, c.b, c.l)
    } else {
        (c.b, c.l, c.a)
    }
}

/// Relies on `slice::sort_by_key` with a key of three integers, which std
/// orders lexicographically: the colors are reordered so that their keys
/// never decrease.
#[verifier::external_body]
fn sort_along(v: &mut Vec<OklabColor>, axis: u8)
    requires
        axis < 3,
    ensures
        final(v)@.to_multiset() == old(v)@.to_multiset(),
        forall|i: int, j: int| 0 <= i < j < final(v)@.len()
            ==> key_le(sort_key(final(v)@[i], axis as int), sort_key(final(v)@[j], axis as int)),
{
    v.sort_by_key(|c| sort_key_of(c, axis))
}

proof fn lemma_adjacent_uniform(s: Seq<OklabColor>, k: int)
    requires
        0 <= k < s.len(),
        forall|j: int| 1 <= j < s.len() ==> #[trigger] s[j - 1] == s[j],
    ensures
        s[k] == s[0],
    decreases k,
{
    if k > 0 {
        lemma_adjacent_uniform(s, k - 1);
        assert(s[k - 1] == s[k]);
    }
}

/// A group of samples with its per-axis bounds.
struct ColorBox {
    pixels: Vec<OklabColor>,
    min_l: i32,
    max_l: i32,
    min_a: i32,
    max_a: i32,
    min_b: i32,
    max_b: i32,
}

impl ColorBox {
    fn from_pixels(pixels: Vec<OklabColor>) -> (r: ColorBox)
        ensures
            r.pixels@ == pixels@,
    {
        let mut min_l = i32::MAX;
        let mut max_l = i32::MIN;
        let mut min_a = i32::MAX;
        let mut max_a = i32::MIN;
        let mut min_b = i32::MAX;
        let mut max_b = i32::MIN;
        let mut i: usize = 0;
        while i < pixels.len()
            invariant
                i <= pixels@.len(),
            decreases pixels@.len() - i,
        {
            let p = pixels[i];
            if p.l < min_l { min_l = p.l; }
            if p.l > max_l { max_l = p.l; }
            if p.a < min_a { min_a = p.a; }
            if p.a > max_a { max_a = p.a; }
            if p.b < min_b { min_b = p.b; }
            if p.b > max_b { max_b = p.b; }
            i = i + 1;
        }
        ColorBox { pixels, min_l, max_l, min_a, max_a, min_b, max_b }
    }

    /// A box can be cut when it holds two different colors.
    fn can_split(&self) -> (r: bool)
        ensures
            r == !uniform(self.pixels@),
    {
        let n = self.pixels.len();
        if n == 0 {
            return false;
        }
        let first = self.pixels[0];
        let mut i: usize = 1;
        while i < n
            invariant
                n == self.pixels@.len(),
                1 <= i <= n,
                first == self.pixels@[0],
                forall|j: int| 0 <= j < i ==> #[trigger] self.pixels@[j] == first,
            decreases n - i,
        {
            if self.pixels[i] != first {
                return true;
            }
            i = i + 1;
        }
        false
    }

    /// Spread of the box, lightness counted twice.
    fn variance(&self) -> (r: i64) {
        let l_range = self.max_l as i64 - self.min_l as i64;
        let a_range = self.max_a as i64 - self.min_a as i64;
        let b_range = self.max_b as i64 - self.min_b as i64;
        l_range * 2 + a_range + b_range
    }

    /// Sorts along the widest axis and cuts at the median, moved to the
    /// nearest place where the color changes so that no color is in both halves.
    fn split(self) -> (r: (ColorBox, ColorBox))
        requires
            !uniform(self.pixels@),
        ensures
            r.0.pixels@.len() + r.1.pixels@.len() == self.pixels@.len(),
            r.0.pixels@.len() > 0, r.1.pixels@.len() > 0,
            r.0.pixels@.to_multiset().add(r.1.pixels@.to_multiset()) == self.pixels@.to_multiset(),
            forall|i: int| 0 <= i < r.0.pixels@.len() ==> self.pixels@.contains(#[trigger] r.0.pixels@[i]),
            forall|i: int| 0 <= i < r.1.pixels@.len() ==> self.pixels@.contains(#[trigger] r.1.pixels@[i]),
            forall|i: int, j: int| 0 <= i < r.0.pixels@.len() && 0 <= j < r.1.pixels@.len()
                ==> #[trigger] r.0.pixels@[i] != #[trigger] r.1.pixels@[j],
    {
        let l_range = self.max_l as i64 - self.min_l as i64;
        let a_range = self.max_a as i64 - self.min_a as i64;
        let b_range = self.max_b as i64 - self.min_b as i64;
        let axis: u8 = if l_range >= a_range && l_range >= b_range {
            0
        } else if a_range >= b_range {
            1
        } else {
            2
        };
        let mut pixels = self.pixels;
        let ghost unsorted = pixels@;
        sort_along(&mut pixels, axis);
        let ghost sorted = pixels@;
        proof {
            assert(sorted.len() == unsorted.len()) by {
                vstd::seq_lib::to_multiset_len(sorted);
                vstd::seq_lib::to_multiset_len(unsorted);
            }
            assert forall|i: int| 0 <= i < sorted.len() implies unsorted.contains(#[trigger] sorted[i]) by {
                assert(sorted.contains(sorted[i]));
                vstd::seq_lib::to_multiset_contains(sorted, sorted[i]);
                vstd::seq_lib::to_multiset_contains(unsorted, sorted[i]);
            }
            if uniform(sorted) {
                assert forall|i: int| 0 <= i < unsorted.len() implies #[trigger] unsorted[i] == unsorted[0] by {
                    assert(unsorted.contains(unsorted[i]));
                    assert(unsorted.contains(unsorted[0]));
                    vstd::seq_lib::to_multiset_contains(sorted, unsorted[i]);
                    vstd::seq_lib::to_multiset_contains(unsorted, unsorted[i]);
                    vstd::seq_lib::to_multiset_contains(sorted, unsorted[0]);
                    vstd::seq_lib::to_multiset_contains(unsorted, unsorted[0]);
                }
            }
        }
        let n = pixels.len();
        let mid = n / 2;
        let mut m = mid;
        while m > 0 && pixels[m - 1] == pixels[m]
            invariant
                n == pixels@.len(), n >= 2, pixels@ == sorted,
                mid == n / 2,
                0 <= m <= mid,
                forall|j: int| m < j <= mid ==> #[trigger] sorted[j - 1] == sorted[j],
            decreases m,
        {
            m = m - 1;
        }
        if m == 0 {
            m = mid + 1;
            while m < n && pixels[m - 1] == pixels[m]
                invariant
                    n == pixels@.len(), n >= 2, pixels@ == sorted,
                    mid == n / 2,
                    mid + 1 <= m <= n,
                    forall|j: int| 1 <= j < m ==> #[trigger] sorted[j - 1] == sorted[j],
                decreases n - m,
            {
                m = m + 1;
            }
            if m == n {
                proof {
                    assert forall|k: int| 0 <= k < sorted.len() implies #[trigger] sorted[k] == sorted[0] by {
                        lemma_adjacent_uniform(sorted, k);
                    }
                    assert(uniform(sorted));
                }
                m = mid;
            }
        }
        let second = pixels.split_off(m);
        proof {
            assert(1 <= m < n && sorted[m - 1] != sorted[m as int]);
            assert(sorted =~= pixels@ + second@);
            vstd::seq_lib::lemma_multiset_commutative(pixels@, second@);
            assert forall|i: int| 0 <= i < pixels@.len() implies unsorted.contains(#[trigger] pixels@[i]) by {
                assert(sorted[i] == pixels@[i]);
            }
            assert forall|i: int| 0 <= i < second@.len() implies unsorted.contains(#[trigger] second@[i]) by {
                assert(sorted[m + i] == second@[i]);
            }
            assert forall|i: int, j: int| 0 <= i < pixels@.len() && 0 <= j < second@.len()
                implies #[trigger] pixels@[i] != #[trigger] second@[j] by {
                assert(pixels@[i] == sorted[i]);
                assert(second@[j] == sorted[m + j]);
                if sorted[i] == sorted[m + j] {
                    let ax = axis as int;
                    if i < m - 1 {
                        assert(key_le(sort_key(sorted[i], ax), sort_key(sorted[m - 1], ax)));
                    }
                    assert(key_le(sort_key(sorted[m - 1], ax), sort_key(sorted[m as int], ax)));
                    if j > 0 {
                        assert(key_le(sort_key(sorted[m as int], ax), sort_key(sorted[m + j], ax)));
                    }
                    assert(sort_key(sorted[m - 1], ax) == sort_key(sorted[m as int], ax));
                    assert(sorted[m - 1] == sorted[m as int]);
                }
            }
        }
        (ColorBox::from_pixels(pixels), ColorBox::from_pixels(second))
    }

    /// Mean color of the box.
    fn average(&self) -> (r: OklabColor)
        requires
            self.pixels@.len() > 0,
        ensures
            forall|k: int| 0 <= k < 3 ==> (#[trigger] coord(r, k)) * self.pixels@.len() <= seq_sum(self.pixels@, k)
                < (coord(r, k) + 1) * self.pixels@.len(),
            forall|k: int| 0 <= k < 3 ==> seq_min(self.pixels@, k) <= #[trigger] coord(r, k) <= seq_max(self.pixels@, k),
            r == mean_of(self.pixels@),
    {
        let s = &self.pixels;
        let n = s.len();
        let mut sum_l: i128 = 0;
        let mut sum_a: i128 = 0;
        let mut sum_b: i128 = 0;
        let mut i: usize = 0;
        while i < n
            invariant
                n == s@.len(),
                i <= n,
                sum_l == seq_sum(s@.subrange(0, i as int), 0),
                sum_a == seq_sum(s@.subrange(0, i as int), 1),
                sum_b == seq_sum(s@.subrange(0, i as int), 2),
                -0x8000_0000 * i <= sum_l <= 0x8000_0000 * i,
                -0x8000_0000 * i <= sum_a <= 0x8000_0000 * i,
                -0x8000_0000 * i <= sum_b <= 0x8000_0000 * i,
            decreases n - i,
        {
            let p = s[i];
            proof {
                let t = s@.subrange(0, i as int + 1);
                assert(t.drop_last() =~= s@.subrange(0, i as int));
                assert(t.last() == p);
            }
            sum_l = sum_l + p.l as i128;
            sum_a = sum_a + p.a as i128;
            sum_b = sum_b + p.b as i128;
            i = i + 1;
        }
        assert(s@.subrange(0, n as int) =~= s@);
        let d = n as i128;
        let l = floor_div(sum_l, d);
        let a = floor_div(sum_a, d);
        let b = floor_div(sum_b, d);
        proof {
            lemma_mean_axis(s@, 0, l as int);
            lemma_mean_axis(s@, 1, a as int);
            lemma_mean_axis(s@, 2, b as int);
            lemma_extrema_fit(s@);
        }
        let r = OklabColor { l: l as i32, a: a as i32, b: b as i32 };
        proof {
            assert forall|k: int| 0 <= k < 3 implies (#[trigger] coord(r, k)) * self.pixels@.len()
                <= seq_sum(self.pixels@, k) < (coord(r, k) + 1) * self.pixels@.len() by {
                let m = coord(r, k);
                assert(d * m <= seq_sum(s@, k) < d * m + d);
                assert((m + 1) * d == d * m + d) by (nonlinear_arith);
                assert(m * d == d * m) by (nonlinear_arith);
            }
        }
        r
    }
}

proof fn lemma_mean_axis(s: Seq<OklabColor>, k: int, m: int)
    requires
        s.len() > 0,
        s.len() * m <= seq_sum(s, k) < s.len() * m + s.len(),
    ensures
        seq_min(s, k) <= m <= seq_max(s, k),
{
    assert forall|j: int| 0 <= j < s.len() implies seq_min(s, k) <= #[trigger] coord(s[j], k) <= seq_max(s, k) by {
        lemma_contains_in_range_axis(s, s[j], k);
    }
    lemma_mean_in_range(s, k, seq_min(s, k), seq_max(s, k), m);
}

proof fn lemma_extrema_fit(s: Seq<OklabColor>)
    ensures
        forall|k: int| 0 <= k < 3 ==> -0x8000_0000 <= #[trigger] seq_min(s, k) < 0x8000_0000,
        forall|k: int| 0 <= k < 3 ==> -0x8000_0000 <= #[trigger] seq_max(s, k) < 0x8000_0000,
{
    assert forall|k: int| 0 <= k < 3 implies -0x8000_0000 <= #[trigger] seq_min(s, k) < 0x8000_0000 by {
        lemma_extrema_fit_axis(s, k);
    }
    assert forall|k: int| 0 <= k < 3 implies -0x8000_0000 <= #[trigger] seq_max(s, k) < 0x8000_0000 by {
        lemma_extrema_fit_axis(s, k);
    }
}

proof fn lemma_extrema_fit_axis(s: Seq<OklabColor>, k: int)
    ensures
        -0x8000_0000 <= seq_min(s, k) < 0x8000_0000,
        -0x8000_0000 <= seq_max(s, k) < 0x8000_0000,
    decreases s.len(),
{
    if s.len() > 1 {
        lemma_extrema_fit_axis(s.drop_last(), k);
    }
}

proof fn lemma_min_attained(s: Seq<OklabColor>, k: int) -> (w: int)
    requires
        s.len() > 0,
    ensures
        0 <= w < s.len(),
        coord(s[w], k) == seq_min(s, k),
    decreases s.len(),
{
    if s.len() == 1 {
        0
    } else {
        let w0 = lemma_min_attained(s.drop_last(), k);
        if coord(s.last(), k) < seq_min(s.drop_last(), k) {
            s.len() - 1
        } else {
            w0
        }
    }
}

proof fn lemma_max_attained(s: Seq<OklabColor>, k: int) -> (w: int)
    requires
        s.len() > 0,
    ensures
        0 <= w < s.len(),
        coord(s[w], k) == seq_max(s, k),
    decreases s.len(),
{
    if s.len() == 1 {
        0
    } else {
        let w0 = lemma_max_attained(s.drop_last(), k);
        if coord(s.last(), k) > seq_max(s.drop_last(), k) {
            s.len() - 1
        } else {
            w0
        }
    }
}

/// The samples of all groups together.
pub open spec fn groups_multiset(groups: Seq<Seq<OklabColor>>) -> Multiset<OklabColor>
    decreases groups.len(),
{
    if groups.len() == 0 {
        Multiset::empty()
    } else {
        groups_multiset(groups.drop_last()).add(groups.last().to_multiset())
    }
}

/// `palette` holds the rounded-down mean of each group, and the groups are
/// non-empty and together hold exactly the samples.
pub open spec fn partition_means(samples: Seq<OklabColor>, groups: Seq<Seq<OklabColor>>, palette: Seq<OklabColor>) -> bool {
    &&& groups.len() == palette.len()
    &&& forall|i: int| 0 <= i < groups.len() ==> (#[trigger] groups[i]).len() > 0 && palette[i] == mean_of(groups[i])
    &&& groups_multiset(groups) == samples.to_multiset()
}

spec fn box_groups(boxes: Seq<ColorBox>) -> Seq<Seq<OklabColor>> {
    Seq::new(boxes.len(), |i: int| boxes[i].pixels@)
}

proof fn lemma_groups_remove(groups: Seq<Seq<OklabColor>>, i: int)
    requires
        0 <= i < groups.len(),
    ensures
        groups_multiset(groups.remove(i)).add(groups[i].to_multiset()) == groups_multiset(groups),
    decreases groups.len(),
{
    broadcast use vstd::multiset::group_multiset_axioms;
    if i < groups.len() - 1 {
        let t = groups.drop_last();
        lemma_groups_remove(t, i);
        assert(groups.remove(i).drop_last() =~= t.remove(i));
        assert(groups.remove(i).last() == groups.last());
        assert(groups_multiset(groups.remove(i)).add(groups[i].to_multiset()) =~= groups_multiset(groups));
    } else {
        assert(groups.remove(i) =~= groups.drop_last());
    }
}

/// Number of samples held by all boxes.
spec fn total_len(boxes: Seq<ColorBox>) -> int
    decreases boxes.len(),
{
    if boxes.len() == 0 {
        0
    } else {
        total_len(boxes.drop_last()) + boxes.last().pixels@.len()
    }
}

proof fn lemma_total_remove(boxes: Seq<ColorBox>, i: int)
    requires
        0 <= i < boxes.len(),
    ensures
        total_len(boxes.remove(i)) + boxes[i].pixels@.len() == total_len(boxes),
    decreases boxes.len(),
{
    if i < boxes.len() - 1 {
        let t = boxes.drop_last();
        lemma_total_remove(t, i);
        assert(boxes.remove(i).drop_last() =~= t.remove(i));
        assert(boxes.remove(i).last() == boxes.last());
    } else {
        assert(boxes.remove(i) =~= boxes.drop_last());
    }
}

/// With every box non-empty there are at most as many boxes as samples, and
/// with every box a single sample exactly as many.
proof fn lemma_total_counts(boxes: Seq<ColorBox>)
    requires
        forall|j: int| 0 <= j < boxes.len() ==> (#[trigger] boxes[j]).pixels@.len() >= 1,
    ensures
        total_len(boxes) >= boxes.len(),
        (forall|j: int| 0 <= j < boxes.len() ==> (#[trigger] boxes[j]).pixels@.len() <= 1)
            ==> total_len(boxes) == boxes.len(),
    decreases boxes.len(),
{
    if boxes.len() > 0 {
        let t = boxes.drop_last();
        assert forall|j: int| 0 <= j < t.len() implies (#[trigger] t[j]).pixels@.len() >= 1 by {
            assert(t[j] == boxes[j]);
        }
        lemma_total_counts(t);
        if forall|j: int| 0 <= j < boxes.len() ==> (#[trigger] boxes[j]).pixels@.len() <= 1 {
            assert forall|j: int| 0 <= j < t.len() implies (#[trigger] t[j]).pixels@.len() <= 1 by {
                assert(t[j] == boxes[j]);
            }
        }
    }
}

/// The splittable box with the largest spread (the last one among equals),
/// or `None` when every box holds a single color.
fn select_split(boxes: &Vec<ColorBox>) -> (r: Option<usize>)
    ensures
        r is None ==> forall|j: int| 0 <= j < boxes@.len() ==> uniform((#[trigger] boxes@[j]).pixels@),
        r matches Some(i) ==> i < boxes@.len() && !uniform(boxes@[i as int].pixels@),
{
    let mut best: Option<usize> = None;
    let mut best_score: i64 = 0;
    let mut i: usize = 0;
    while i < boxes.len()
        invariant
            i <= boxes@.len(),
            best is None ==> forall|j: int| 0 <= j < i ==> uniform((#[trigger] boxes@[j]).pixels@),
            best matches Some(b) ==> b < i && !uniform(boxes@[b as int].pixels@),
        decreases boxes@.len() - i,
    {
        if boxes[i].can_split() {
            let score = boxes[i].variance();
            match best {
                None => {
                    best = Some(i);
                    best_score = score;
                },
                Some(_) => {
                    if score >= best_score {
                        best = Some(i);
                        best_score = score;
                    }
                },
            }
        }
        i = i + 1;
    }
    best
}

/// Number of entries of the palette built from samples with `n` distinct
/// colors for `target` colors.
pub open spec fn palette_len(n: int, target: int) -> int {
    if target < n { target } else { n }
}

/// The palette never exceeds the requested size, and has exactly the
/// requested size whenever the samples hold at least that many distinct colors.
pub proof fn lemma_palette_size_bound(samples: Seq<OklabColor>, target: int)
    requires
        samples.len() > 0,
        target >= 0,
    ensures
        palette_len(samples.to_set().len() as int, target) <= target,
        palette_len(samples.to_set().len() as int, target) <= samples.to_set().len(),
        samples.to_set().len() >= target ==> palette_len(samples.to_set().len() as int, target) == target,
{
}

/// Non-empty samples hold at least one distinct color.
pub proof fn lemma_distinct_nonempty(s: Seq<OklabColor>)
    requires
        s.len() > 0,
    ensures
        1 <= s.to_set().len() <= s.len(),
{
    broadcast use vstd::seq_lib::seq_to_set_is_finite;
    assert(s.to_set().contains(s[0]));
    vstd::set_lib::lemma_set_empty_equivalency_len(s.to_set());
    s.lemma_cardinality_of_set();
}

/// No color is in two boxes.
spec fn boxes_disjoint(b: Seq<ColorBox>) -> bool {
    forall|j1: int, j2: int, i1: int, i2: int|
        0 <= j1 < b.len() && 0 <= j2 < b.len() && j1 != j2 && 0 <= i1 < b[j1].pixels@.len()
            && 0 <= i2 < b[j2].pixels@.len() ==> #[trigger] b[j1].pixels@[i1] != #[trigger] b[j2].pixels@[i2]
}

/// One color of each box.
spec fn box_reps(b: Seq<ColorBox>) -> Seq<OklabColor> {
    Seq::new(b.len(), |j: int| b[j].pixels@[0])
}

/// Disjoint non-empty boxes of samples are at most as many as the distinct samples.
proof fn lemma_boxes_le_distinct(b: Seq<ColorBox>, pixels: Seq<OklabColor>)
    requires
        boxes_disjoint(b),
        forall|j: int| 0 <= j < b.len() ==> (#[trigger] b[j]).pixels@.len() >= 1,
        forall|j: int, i: int| 0 <= j < b.len() && 0 <= i < b[j].pixels@.len()
            ==> pixels.contains(#[trigger] b[j].pixels@[i]),
    ensures
        b.len() <= pixels.to_set().len(),
{
    broadcast use vstd::seq_lib::seq_to_set_is_finite;
    let reps = box_reps(b);
    assert(reps.no_duplicates()) by {
        assert forall|x: int, y: int| 0 <= x < reps.len() && 0 <= y < reps.len() && x != y
            implies reps[x] != reps[y] by {
            assert(b[x].pixels@[0] != b[y].pixels@[0]);
        }
    }
    reps.unique_seq_to_set();
    assert(reps.to_set().subset_of(pixels.to_set())) by {
        assert forall|c: OklabColor| reps.to_set().contains(c) implies pixels.to_set().contains(c) by {
            let j = choose|j: int| 0 <= j < reps.len() && reps[j] == c;
            assert(pixels.contains(b[j].pixels@[0]));
        }
    }
    vstd::set_lib::lemma_len_subset(reps.to_set(), pixels.to_set());
}

proof fn lemma_groups_count(g: Seq<Seq<OklabColor>>, x: OklabColor) -> (w: (int, int))
    requires
        groups_multiset(g).count(x) > 0,
    ensures
        0 <= w.0 < g.len(),
        0 <= w.1 < g[w.0].len(),
        g[w.0][w.1] == x,
    decreases g.len(),
{
    broadcast use vstd::multiset::group_multiset_axioms;
    if g.len() == 0 {
        assert(false);
        (0, 0)
    } else if g.last().to_multiset().count(x) > 0 {
        vstd::seq_lib::to_multiset_contains(g.last(), x);
        let i = choose|i: int| 0 <= i < g.last().len() && g.last()[i] == x;
        (g.len() - 1, i)
    } else {
        let w = lemma_groups_count(g.drop_last(), x);
        assert(g.drop_last()[w.0] == g[w.0]);
        w
    }
}

/// When every box holds one color, the distinct samples are at most as many as the boxes.
proof fn lemma_distinct_le_boxes(b: Seq<ColorBox>, pixels: Seq<OklabColor>)
    requires
        groups_multiset(box_groups(b)) == pixels.to_multiset(),
        forall|j: int| 0 <= j < b.len() ==> uniform((#[trigger] b[j]).pixels@),
    ensures
        pixels.to_set().len() <= b.len(),
{
    broadcast use vstd::seq_lib::seq_to_set_is_finite;
    let reps = box_reps(b);
    assert(pixels.to_set().subset_of(reps.to_set())) by {
        assert forall|c: OklabColor| pixels.to_set().contains(c) implies reps.to_set().contains(c) by {
            vstd::seq_lib::to_multiset_contains(pixels, c);
            let w = lemma_groups_count(box_groups(b), c);
            assert(box_groups(b)[w.0] == b[w.0].pixels@);
            assert(b[w.0].pixels@[w.1] == b[w.0].pixels@[0]);
            assert(reps[w.0] == c);
        }
    }
    vstd::set_lib::lemma_len_subset(pixels.to_set(), reps.to_set());
    reps.lemma_cardinality_of_set();
}

/// Builds a palette of at most `target_size` colors by median cut: starting
/// from one box holding every sample, the splittable box with the largest
/// spread (lightness range counted twice, plus both chroma ranges) is cut at
/// the median of its widest axis (moved to the nearest change of color, so
/// that a color never spans two boxes), until there are `target_size` boxes or
/// every box holds a single color. Each entry is the mean of one box, so the
/// palette has `min(target_size, distinct colors)` entries.
pub fn build_oklab_palette(pixels: &[OklabColor], target_size: usize) -> (r: Vec<OklabColor>)
    ensures
        r@.len() == palette_len(pixels@.to_set().len() as int, target_size as int),
        forall|i: int| 0 <= i < r@.len() ==> within_range(#[trigger] r@[i], pixels@),
        pixels@.len() > 0 && target_size > 0 ==> exists|groups: Seq<Seq<OklabColor>>|
            #[trigger] partition_means(pixels@, groups, r@),
{
    if pixels.len() == 0 || target_size == 0 {
        proof { pixels@.lemma_cardinality_of_set(); }
        return Vec::new();
    }
    let mut boxes: Vec<ColorBox> = Vec::new();
    boxes.push(ColorBox::from_pixels(vstd::slice::slice_to_vec(pixels)));
    proof {
        assert(boxes@.drop_last() =~= Seq::<ColorBox>::empty());
        assert(total_len(boxes@) == total_len(boxes@.drop_last()) + boxes@.last().pixels@.len());
        assert(box_groups(boxes@).drop_last() =~= Seq::<Seq<OklabColor>>::empty());
        assert(groups_multiset(box_groups(boxes@)) =~= pixels@.to_multiset()) by {
            broadcast use vstd::multiset::group_multiset_axioms;
            let g = box_groups(boxes@);
            assert(g.last() == pixels@);
            assert(g.drop_last() =~= Seq::<Seq<OklabColor>>::empty());
            assert(groups_multiset(g) == groups_multiset(g.drop_last()).add(g.last().to_multiset()));
        }
        assert forall|j: int, i: int| 0 <= j < boxes@.len() && 0 <= i < boxes@[j].pixels@.len()
            implies pixels@.contains(#[trigger] boxes@[j].pixels@[i]) by {
            assert(pixels@[i] == boxes@[j].pixels@[i]);
        }
        assert(boxes_disjoint(boxes@));
    }
    loop
        invariant
            1 <= boxes@.len() <= target_size,
            total_len(boxes@) == pixels@.len(),
            groups_multiset(box_groups(boxes@)) == pixels@.to_multiset(),
            forall|j: int| 0 <= j < boxes@.len() ==> (#[trigger] boxes@[j]).pixels@.len() >= 1,
            forall|j: int, i: int| 0 <= j < boxes@.len() && 0 <= i < boxes@[j].pixels@.len()
                ==> pixels@.contains(#[trigger] boxes@[j].pixels@[i]),
            boxes_disjoint(boxes@),
        ensures
            total_len(boxes@) == pixels@.len(),
            groups_multiset(box_groups(boxes@)) == pixels@.to_multiset(),
            forall|j: int| 0 <= j < boxes@.len() ==> (#[trigger] boxes@[j]).pixels@.len() >= 1,
            forall|j: int, i: int| 0 <= j < boxes@.len() && 0 <= i < boxes@[j].pixels@.len()
                ==> pixels@.contains(#[trigger] boxes@[j].pixels@[i]),
            boxes@.len() == palette_len(pixels@.to_set().len() as int, target_size as int),
        decreases pixels@.len() - boxes@.len(),
    {
        proof {
            lemma_total_counts(boxes@);
            lemma_boxes_le_distinct(boxes@, pixels@);
        }
        if boxes.len() >= target_size {
            break;
        }
        match select_split(&boxes) {
            None => {
                proof { lemma_distinct_le_boxes(boxes@, pixels@); }
                break;
            },
            Some(idx) => {
                let ghost before = boxes@;
                let chosen = boxes.remove(idx);
                let (first, second) = chosen.split();
                let ghost removed = boxes@;
                boxes.push(first);
                boxes.push(second);
                proof {
                    lemma_total_remove(before, idx as int);
                    lemma_groups_remove(box_groups(before), idx as int);
                    assert(box_groups(before).remove(idx as int) =~= box_groups(removed));
                    assert(box_groups(boxes@).drop_last().drop_last() =~= box_groups(removed));
                    assert(box_groups(boxes@).drop_last().last() == first.pixels@);
                    assert(box_groups(boxes@).last() == second.pixels@);
                    assert(groups_multiset(box_groups(boxes@)) =~= pixels@.to_multiset()) by {
                        broadcast use vstd::multiset::group_multiset_axioms;
                        let g = box_groups(boxes@);
                        let rg = box_groups(removed);
                        assert(box_groups(before)[idx as int] == chosen.pixels@);
                        assert(groups_multiset(g) == groups_multiset(g.drop_last()).add(second.pixels@.to_multiset()));
                        assert(groups_multiset(g.drop_last()) == groups_multiset(g.drop_last().drop_last())
                            .add(first.pixels@.to_multiset()));
                        assert(groups_multiset(g.drop_last().drop_last()) == groups_multiset(rg));
                        assert(groups_multiset(rg).add(chosen.pixels@.to_multiset()) == pixels@.to_multiset());
                    }
                    assert(boxes@.drop_last().drop_last() =~= removed);
                    assert(total_len(boxes@.drop_last()) == total_len(removed) + first.pixels@.len());
                    assert(total_len(boxes@) == total_len(boxes@.drop_last()) + second.pixels@.len());
                    assert forall|j: int, i: int| 0 <= j < boxes@.len() && 0 <= i < boxes@[j].pixels@.len()
                        implies pixels@.contains(#[trigger] boxes@[j].pixels@[i]) by {
                        if j < removed.len() {
                            let jj = if j < idx { j } else { j + 1 };
                            assert(boxes@[j] == before[jj]);
                        } else {
                            let e = boxes@[j].pixels@[i];
                            assert(chosen.pixels@.contains(e));
                            let k = choose|k: int| 0 <= k < chosen.pixels@.len() && chosen.pixels@[k] == e;
                            assert(before[idx as int].pixels@[k] == e);
                        }
                    }
                    assert forall|j: int| 0 <= j < boxes@.len() implies (#[trigger] boxes@[j]).pixels@.len() >= 1 by {
                        if j < removed.len() {
                            let jj = if j < idx { j } else { j + 1 };
                            assert(boxes@[j] == before[jj]);
                        }
                    }
                    assert(boxes_disjoint(boxes@)) by {
                        assert forall|j1: int, j2: int, i1: int, i2: int|
                            0 <= j1 < boxes@.len() && 0 <= j2 < boxes@.len() && j1 != j2
                                && 0 <= i1 < boxes@[j1].pixels@.len() && 0 <= i2 < boxes@[j2].pixels@.len()
                            implies #[trigger] boxes@[j1].pixels@[i1] != #[trigger] boxes@[j2].pixels@[i2] by {
                            let n0 = removed.len() as int;
                            let x = boxes@[j1].pixels@[i1];
                            let y = boxes@[j2].pixels@[i2];
                            let k1 = if j1 < idx { j1 } else { j1 + 1 };
                            let k2 = if j2 < idx { j2 } else { j2 + 1 };
                            if j1 < n0 && j2 < n0 {
                                assert(boxes@[j1] == before[k1]);
                                assert(boxes@[j2] == before[k2]);
                            } else if j1 < n0 {
                                assert(boxes@[j1] == before[k1]);
                                assert(chosen.pixels@.contains(y));
                                let k = choose|k: int| 0 <= k < chosen.pixels@.len() && chosen.pixels@[k] == y;
                                assert(before[idx as int].pixels@[k] == y);
                            } else if j2 < n0 {
                                assert(boxes@[j2] == before[k2]);
                                assert(chosen.pixels@.contains(x));
                                let k = choose|k: int| 0 <= k < chosen.pixels@.len() && chosen.pixels@[k] == x;
                                assert(before[idx as int].pixels@[k] == x);
                            } else if j1 == n0 {
                                assert(first.pixels@[i1] != second.pixels@[i2]);
                            } else {
                                assert(first.pixels@[i2] != second.pixels@[i1]);
                            }
                        }
                    }
                    lemma_total_counts(boxes@);
                }
            },
        }
    }
    let mut palette: Vec<OklabColor> = Vec::new();
    let mut j: usize = 0;
    while j < boxes.len()
        invariant
            j <= boxes@.len(),
            palette@.len() == j,
            forall|q: int| 0 <= q < boxes@.len() ==> (#[trigger] boxes@[q]).pixels@.len() >= 1,
            forall|q: int, i: int| 0 <= q < boxes@.len() && 0 <= i < boxes@[q].pixels@.len()
                ==> pixels@.contains(#[trigger] boxes@[q].pixels@[i]),
            forall|q: int| 0 <= q < j ==> within_range(#[trigger] palette@[q], pixels@),
            forall|q: int| 0 <= q < j ==> #[trigger] palette@[q] == mean_of(boxes@[q].pixels@),
        decreases boxes@.len() - j,
    {
        let c = boxes[j].average();
        proof {
            let bp = boxes@[j as int].pixels@;
            assert forall|k: int| 0 <= k < 3 implies seq_min(pixels@, k) <= #[trigger] coord(c, k)
                <= seq_max(pixels@, k) by {
                let wlo = lemma_min_attained(bp, k);
                let whi = lemma_max_attained(bp, k);
                assert(pixels@.contains(boxes@[j as int].pixels@[wlo]));
                assert(pixels@.contains(boxes@[j as int].pixels@[whi]));
                lemma_contains_in_range_axis(pixels@, bp[wlo], k);
                lemma_contains_in_range_axis(pixels@, bp[whi], k);
            }
        }
        palette.push(c);
        j = j + 1;
    }
    proof {
        let groups = box_groups(boxes@);
        assert forall|i: int| 0 <= i < groups.len() implies (#[trigger] groups[i]).len() > 0
            && palette@[i] == mean_of(groups[i]) by {
            assert(groups[i] == boxes@[i].pixels@);
        }
        assert(partition_means(pixels@, groups, palette@));
    }
    palette
}

proof fn lemma_uniform_extrema(s: Seq<OklabColor>, c: OklabColor, k: int)
    requires
        s.len() > 0,
        forall|i: int| 0 <= i < s.len() ==> #[trigger] s[i] == c,
    ensures
        seq_min(s, k) == coord(c, k),
        seq_max(s, k) == coord(c, k),
    decreases s.len(),
{
    if s.len() > 1 {
        let t = s.drop_last();
        assert forall|i: int| 0 <= i < t.len() implies #[trigger] t[i] == c by {
            assert(t[i] == s[i]);
        }
        lemma_uniform_extrema(t, c, k);
    }
}

/// A batch whose samples all have one color yields a palette whose entries
/// are all that color: a single effective entry.
pub proof fn lemma_uniform_samples_palette(samples: Seq<OklabColor>, c: OklabColor, palette: Seq<OklabColor>)
    requires
        samples.len() > 0,
        forall|i: int| 0 <= i < samples.len() ==> #[trigger] samples[i] == c,
        forall|i: int| 0 <= i < palette.len() ==> within_range(#[trigger] palette[i], samples),
    ensures
        forall|i: int| 0 <= i < palette.len() ==> #[trigger] palette[i] == c,
{
    assert forall|i: int| 0 <= i < palette.len() implies #[trigger] palette[i] == c by {
        let e = palette[i];
        lemma_uniform_extrema(samples, c, 0);
        lemma_uniform_extrema(samples, c, 1);
        lemma_uniform_extrema(samples, c, 2);
        assert(within_range(e, samples));
        assert(coord(e, 0) == coord(c, 0));
        assert(coord(e, 1) == coord(c, 1));
        assert(coord(e, 2) == coord(c, 2));
    }
}

} // verus!
