//! The DIFF panel and the whole comparison of two screenshots: padding both
//! to a common size, marking the changed pixels and laying out
//! `BEFORE | DIFF | AFTER`.

use vstd::prelude::*;

use crate::pixel::{spec_pink, context_pixel, pink, pixel_delta, is_changed, pad_colour, spec_diff_pixel, spec_gap_colour, Rgba};
use crate::raster::{lemma_padded_from_pixels, pad_pixel, padded, blank_image, fits, hcat, pad_to, panel_views, strip_advance, strip_at, strip_fits, strip_height, strip_width, total_panel_width, Image, ImageView, GAP};

verus! {

/// Number of positions `i < n` at which the pixel pair counts as changed.
pub open spec fn changed_among(a: Seq<Rgba>, b: Seq<Rgba>, threshold: u8, n: nat) -> nat
    decreases n,
{
    if n == 0 {
        0
    } else {
        changed_among(a, b, threshold, (n - 1) as nat) + if is_changed(a[n - 1], b[n - 1], threshold) {
            1nat
        } else {
            0nat
        }
    }
}

pub open spec fn min_len(a: Seq<Rgba>, b: Seq<Rgba>) -> nat {
    if a.len() <= b.len() { a.len() } else { b.len() }
}

/// Number of changed pixels between two pixel sequences, compared position by
/// position over the shorter of the two.
pub open spec fn count_changed(a: Seq<Rgba>, b: Seq<Rgba>, threshold: u8) -> nat {
    changed_among(a, b, threshold, min_len(a, b))
}

/// The pixels of the DIFF panel: position by position the diff pixel of the
/// two inputs; positions past the end of `b` stay zero.
pub open spec fn diff_pixels(a: Seq<Rgba>, b: Seq<Rgba>, threshold: u8) -> Seq<Rgba> {
    Seq::new(
        a.len(),
        |i: int|
            if i < b.len() {
                spec_diff_pixel(a[i], b[i], threshold)
            } else {
                [0u8, 0u8, 0u8, 0u8]
            },
    )
}

/// The DIFF panel of `a` and `b`, which has the dimensions of `a`.
pub open spec fn diff_view(a: ImageView, b: ImageView, threshold: u8) -> ImageView {
    ImageView { width: a.width, height: a.height, pixels: diff_pixels(a.pixels, b.pixels, threshold) }
}

proof fn lemma_changed_among_bound(a: Seq<Rgba>, b: Seq<Rgba>, threshold: u8, n: nat)
    ensures
        changed_among(a, b, threshold, n) <= n,
    decreases n,
{
    if n > 0 {
        lemma_changed_among_bound(a, b, threshold, (n - 1) as nat);
    }
}

/// Build the DIFF panel: a dimmed greyscale of `after` as context, with changed
/// pixels painted pink. Returns the panel and the changed-pixel count.
pub fn build_diff(a: &Image, b: &Image, threshold: u8) -> (res: (Image, u64))
    ensures
        res.0@.wf(),
        res.0@ == diff_view(a@, b@, threshold),
        res.1 == count_changed(a@.pixels, b@.pixels, threshold),
{
    let mut out = blank_image(a.width(), a.height());
    let pa = a.pixels();
    let pb = b.pixels();
    let n: usize = if pa.len() <= pb.len() { pa.len() } else { pb.len() };
    let mut changed: u64 = 0;
    for i in 0..n
        invariant
            n == min_len(a@.pixels, b@.pixels),
            pa@ == a@.pixels,
            pb@ == b@.pixels,
            a@.wf(),
            out@.width == a@.width,
            out@.height == a@.height,
            out@.pixels.len() == a@.pixels.len(),
            forall|j: int|
                0 <= j < a@.pixels.len() ==> #[trigger] out@.pixels[j] == if j < i {
                    spec_diff_pixel(a@.pixels[j], b@.pixels[j], threshold)
                } else {
                    [0u8, 0u8, 0u8, 0u8]
                },
            changed == changed_among(a@.pixels, b@.pixels, threshold, i as nat),
    {
        proof {
            lemma_changed_among_bound(a@.pixels, b@.pixels, threshold, i as nat);
        }
        if pixel_delta(&pa[i], &pb[i]) > threshold {
            changed = changed + 1;
            out = out.with_pixel(i, pink());
        } else {
            out = out.with_pixel(i, context_pixel(&pb[i]));
        }
    }
    assert(out@.pixels =~= diff_pixels(a@.pixels, b@.pixels, threshold));
    (out, changed)
}


/// The outcome of a comparison: how many pixels changed out of how many.
pub struct DiffResult {
    pub changed: u64,
    pub total: u64,
}

/// A finished comparison: the image to write, the counts, and the common
/// size to which both inputs were padded.
pub struct Comparison {
    pub composite: Image,
    pub result: DiffResult,
    pub width: u32,
    pub height: u32,
}

pub open spec fn max_u32(a: u32, b: u32) -> u32 {
    if a >= b { a } else { b }
}

/// Common width of the two inputs: the wider one's.
pub open spec fn common_width(a: ImageView, b: ImageView) -> u32 {
    max_u32(a.width, b.width)
}

/// Common height of the two inputs: the taller one's.
pub open spec fn common_height(a: ImageView, b: ImageView) -> u32 {
    max_u32(a.height, b.height)
}

/// Width of `BEFORE | DIFF | AFTER` for panels `w` wide.
pub open spec fn composite_width(w: int) -> int {
    3 * w + 2 * GAP
}

/// The images that a comparison allocates can be addressed.
pub open spec fn comparison_fits(a: ImageView, b: ImageView, diff_only: bool) -> bool {
    let w = common_width(a, b) as int;
    let h = common_height(a, b) as int;
    &&& fits(w, h)
    &&& !diff_only ==> composite_width(w) <= u32::MAX && fits(composite_width(w), h)
}

/// The pixel at (`x`, `y`) of `before | diff | after`, all three `w` wide,
/// with a gap of `GAP` columns between neighbours.
pub open spec fn side_by_side_at(before: ImageView, diff: ImageView, after: ImageView, x: int, y: int) -> Rgba {
    let w = before.width as int;
    if x < w {
        before.at(x, y)
    } else if x < w + GAP {
        spec_gap_colour()
    } else if x < 2 * w + GAP {
        diff.at(x - w - GAP, y)
    } else if x < 2 * w + 2 * GAP {
        spec_gap_colour()
    } else {
        after.at(x - 2 * w - 2 * GAP, y)
    }
}

/// Compares two decoded screenshots: pads both top-left to the larger
/// dimensions, builds the DIFF panel at `threshold` and, unless `diff_only`,
/// lays out `BEFORE | DIFF | AFTER`.
pub fn compare(img_a: &Image, img_b: &Image, threshold: u8, diff_only: bool) -> (res: Comparison)
    requires
        comparison_fits(img_a@, img_b@, diff_only),
    ensures
        ({
            let w = common_width(img_a@, img_b@);
            let h = common_height(img_a@, img_b@);
            let before = padded(img_a@, w, h);
            let after = padded(img_b@, w, h);
            let diff = diff_view(before, after, threshold);
            &&& res.width == w
            &&& res.height == h
            &&& res.width >= img_a@.width && res.width >= img_b@.width
            &&& res.height >= img_a@.height && res.height >= img_b@.height
            &&& (res.width == img_a@.width || res.width == img_b@.width)
            &&& (res.height == img_a@.height || res.height == img_b@.height)
            &&& res.result.total == w * h
            &&& res.result.changed == count_changed(before.pixels, after.pixels, threshold)
            &&& res.result.changed <= res.result.total
            &&& res.composite@.wf()
            &&& diff_only ==> res.composite@ == diff
            &&& !diff_only ==> {
                &&& res.composite@.width == composite_width(w as int)
                &&& res.composite@.width == 3 * w + 32
                &&& res.composite@.height == h
                &&& forall|x: int, y: int|
                    #![trigger res.composite@.at(x, y)]
                    res.composite@.contains(x, y) ==> res.composite@.at(x, y) == side_by_side_at(
                        before,
                        diff,
                        after,
                        x,
                        y,
                    )
            }
        }),
{
    proof {
        lemma_common_size_covers_both(img_a@, img_b@);
    }
    let w: u32 = if img_a.width() >= img_b.width() { img_a.width() } else { img_b.width() };
    let h: u32 = if img_a.height() >= img_b.height() { img_a.height() } else { img_b.height() };
    let pa = pad_to(img_a, w, h, pad_colour());
    let pb = pad_to(img_b, w, h, pad_colour());
    proof {
        lemma_padded_from_pixels(pa@, img_a@);
        lemma_padded_from_pixels(pb@, img_b@);
    }
    let (diff, changed) = build_diff(&pa, &pb, threshold);
    assert((w as u64) * (h as u64) <= u64::MAX) by (nonlinear_arith)
        requires
            w <= u32::MAX,
            h <= u32::MAX,
    ;
    let total: u64 = (w as u64) * (h as u64);
    proof {
        lemma_changed_among_bound(pa@.pixels, pb@.pixels, threshold, min_len(pa@.pixels, pb@.pixels));
    }
    let ghost before = pa@;
    let ghost after = pb@;
    let ghost dv = diff@;
    let composite = if diff_only {
        diff
    } else {
        let panels: [&Image; 3] = [&pa, &diff, &pb];
        let ghost ps = panel_views(panels@);
        proof {
            assert(ps =~= seq![before, dv, after]);
            lemma_three_panels(ps, before, dv, after);
        }
        let out = hcat(&panels);
        proof {
            assert(panel_views(panels@) == ps);
        }
        out
    };
    Comparison { composite, result: DiffResult { changed, total }, width: w, height: h }
}

/// Three panels of equal size laid side by side.
proof fn lemma_three_panels(ps: Seq<ImageView>, p0: ImageView, p1: ImageView, p2: ImageView)
    requires
        ps == seq![p0, p1, p2],
        p1.width == p0.width,
        p2.width == p0.width,
        p1.height == p0.height,
        p2.height == p0.height,
        composite_width(p0.width as int) <= u32::MAX,
        fits(composite_width(p0.width as int), p0.height as int),
    ensures
        strip_fits(ps),
        strip_width(ps) == composite_width(p0.width as int),
        strip_height(ps) == p0.height,
        forall|x: int, y: int|
            0 <= x < composite_width(p0.width as int) && 0 <= y < p0.height ==> #[trigger] strip_at(ps, x, y) == side_by_side_at(
                p0,
                p1,
                p2,
                x,
                y,
            ),
{
    let s2 = ps.drop_last();
    let s1 = s2.drop_last();
    let s0 = s1.drop_last();
    assert(s2 =~= seq![p0, p1]);
    assert(s1 =~= seq![p0]);
    assert(s0 =~= Seq::<ImageView>::empty());
    assert(total_panel_width(s0) == 0);
    assert(total_panel_width(s1) == p0.width);
    assert(total_panel_width(s2) == 2 * p0.width);
    assert(total_panel_width(ps) == 3 * p0.width);
    assert(strip_height(s0) == 0);
    assert(strip_height(s1) == p0.height);
    assert(strip_height(s2) == p0.height);
    assert(strip_advance(s1) == p0.width + GAP);
    assert(strip_advance(s2) == 2 * p0.width + 2 * GAP);
    assert forall|x: int, y: int|
        0 <= x < composite_width(p0.width as int) && 0 <= y < p0.height implies #[trigger] strip_at(ps, x, y) == side_by_side_at(
        p0,
        p1,
        p2,
        x,
        y,
    ) by {
        let w = p0.width as int;
        assert(strip_at(s0, x, y) == spec_gap_colour());
        assert(strip_at(s1, x, y) == if p0.contains(x, y) { p0.at(x, y) } else { strip_at(s0, x, y) });
        assert(strip_at(s2, x, y) == if p1.contains(x - w - GAP, y) {
            p1.at(x - w - GAP, y)
        } else {
            strip_at(s1, x, y)
        });
        assert(strip_at(ps, x, y) == if p2.contains(x - 2 * w - 2 * GAP, y) {
            p2.at(x - 2 * w - 2 * GAP, y)
        } else {
            strip_at(s2, x, y)
        });
    }
}

/// Raising the threshold never increases the number of changed pixels.
pub proof fn lemma_threshold_monotonic(a: Seq<Rgba>, b: Seq<Rgba>, low: u8, high: u8)
    requires
        low <= high,
    ensures
        count_changed(a, b, high) <= count_changed(a, b, low),
{
    lemma_changed_among_monotonic(a, b, low, high, min_len(a, b));
}

proof fn lemma_changed_among_monotonic(a: Seq<Rgba>, b: Seq<Rgba>, low: u8, high: u8, n: nat)
    requires
        low <= high,
    ensures
        changed_among(a, b, high, n) <= changed_among(a, b, low, n),
    decreases n,
{
    if n > 0 {
        lemma_changed_among_monotonic(a, b, low, high, (n - 1) as nat);
    }
}

/// Comparing an image with itself finds no change, whatever the threshold.
pub proof fn lemma_identical_unchanged(a: Seq<Rgba>, threshold: u8)
    ensures
        count_changed(a, a, threshold) == 0,
{
    lemma_changed_among_identical(a, threshold, a.len());
}

proof fn lemma_changed_among_identical(a: Seq<Rgba>, threshold: u8, n: nat)
    ensures
        changed_among(a, a, threshold, n) == 0,
    decreases n,
{
    if n > 0 {
        lemma_changed_among_identical(a, threshold, (n - 1) as nat);
        crate::pixel::lemma_pixel_delta_zero(a[n - 1], a[n - 1]);
    }
}

/// Swapping BEFORE and AFTER does not change the number of changed pixels.
pub proof fn lemma_count_symmetric(a: Seq<Rgba>, b: Seq<Rgba>, threshold: u8)
    ensures
        count_changed(a, b, threshold) == count_changed(b, a, threshold),
{
    lemma_changed_among_symmetric(a, b, threshold, min_len(a, b));
}

proof fn lemma_changed_among_symmetric(a: Seq<Rgba>, b: Seq<Rgba>, threshold: u8, n: nat)
    ensures
        changed_among(a, b, threshold, n) == changed_among(b, a, threshold, n),
    decreases n,
{
    if n > 0 {
        lemma_changed_among_symmetric(a, b, threshold, (n - 1) as nat);
        crate::pixel::lemma_pixel_delta_symmetric(a[n - 1], b[n - 1]);
    }
}

/// A pixel of the DIFF panel is pink exactly where its pair changed.
pub proof fn lemma_pink_marks_changes(a: Seq<Rgba>, b: Seq<Rgba>, threshold: u8, i: int)
    requires
        0 <= i < min_len(a, b),
    ensures
        (diff_pixels(a, b, threshold)[i] == spec_pink()) <==> is_changed(a[i], b[i], threshold),
{
    let p = diff_pixels(a, b, threshold)[i];
    if !is_changed(a[i], b[i], threshold) {
        assert(p[0] == p[1]);
        assert(spec_pink()[0] != spec_pink()[1]);
    }
}

/// The number of changed pixels never exceeds the number of positions compared.
pub proof fn lemma_changed_at_most_compared(a: Seq<Rgba>, b: Seq<Rgba>, threshold: u8)
    ensures
        count_changed(a, b, threshold) <= min_len(a, b),
{
    lemma_changed_among_bound(a, b, threshold, min_len(a, b));
}

/// The common size is the larger width and the larger height of the two
/// inputs, so every pixel of either input lies in the compared area.
pub proof fn lemma_common_size_covers_both(a: ImageView, b: ImageView)
    ensures
        common_width(a, b) >= a.width,
        common_width(a, b) >= b.width,
        common_width(a, b) == a.width || common_width(a, b) == b.width,
        common_height(a, b) >= a.height,
        common_height(a, b) >= b.height,
        common_height(a, b) == a.height || common_height(a, b) == b.height,
        forall|x: int, y: int|
            a.contains(x, y) || b.contains(x, y) ==> 0 <= x < common_width(a, b) && 0 <= y
                < common_height(a, b),
{
}

/// Every pixel of either input is compared: at a position inside the BEFORE
/// image the padded BEFORE shows the BEFORE pixel, and likewise for AFTER;
/// elsewhere the padding is transparent black.
pub proof fn lemma_inputs_are_compared_in_full(a: ImageView, b: ImageView, x: int, y: int)
    requires
        a.contains(x, y) || b.contains(x, y),
    ensures
        pad_pixel(a, x, y) == if a.contains(x, y) { a.at(x, y) } else { [0u8, 0u8, 0u8, 0u8] },
        pad_pixel(b, x, y) == if b.contains(x, y) { b.at(x, y) } else { [0u8, 0u8, 0u8, 0u8] },
        0 <= x < common_width(a, b),
        0 <= y < common_height(a, b),
{
    lemma_common_size_covers_both(a, b);
}

/// The count is the number of compared positions whose pixels differ by more
/// than the threshold in some channel: none such gives 0, all such gives the
/// number of positions, and a single such position gives at least 1.
pub proof fn lemma_count_changed_extremes(a: Seq<Rgba>, b: Seq<Rgba>, threshold: u8, i: int)
    ensures
        (forall|j: int| 0 <= j < min_len(a, b) ==> !is_changed(#[trigger] a[j], b[j], threshold))
            ==> count_changed(a, b, threshold) == 0,
        (forall|j: int| 0 <= j < min_len(a, b) ==> is_changed(#[trigger] a[j], b[j], threshold))
            ==> count_changed(a, b, threshold) == min_len(a, b),
        0 <= i < min_len(a, b) && is_changed(a[i], b[i], threshold) ==> count_changed(a, b, threshold)
            >= 1,
{
    lemma_changed_among_extremes(a, b, threshold, min_len(a, b), i);
}

proof fn lemma_changed_among_extremes(a: Seq<Rgba>, b: Seq<Rgba>, threshold: u8, n: nat, i: int)
    ensures
        (forall|j: int| 0 <= j < n ==> !is_changed(#[trigger] a[j], b[j], threshold))
            ==> changed_among(a, b, threshold, n) == 0,
        (forall|j: int| 0 <= j < n ==> is_changed(#[trigger] a[j], b[j], threshold))
            ==> changed_among(a, b, threshold, n) == n,
        0 <= i < n && is_changed(a[i], b[i], threshold) ==> changed_among(a, b, threshold, n) >= 1,
    decreases n,
{
    if n > 0 {
        lemma_changed_among_extremes(a, b, threshold, (n - 1) as nat, i);
    }
}

/// Appending one more pixel pair adds one to the count exactly when that pair changed.
pub proof fn lemma_count_changed_push(a: Seq<Rgba>, b: Seq<Rgba>, p: Rgba, q: Rgba, threshold: u8)
    requires
        a.len() == b.len(),
    ensures
        count_changed(a.push(p), b.push(q), threshold) == count_changed(a, b, threshold) + if is_changed(
            p,
            q,
            threshold,
        ) {
            1int
        } else {
            0int
        },
{
    lemma_changed_among_prefix(a.push(p), b.push(q), a, b, threshold, a.len());
}

proof fn lemma_changed_among_prefix(a2: Seq<Rgba>, b2: Seq<Rgba>, a: Seq<Rgba>, b: Seq<Rgba>, threshold: u8, n: nat)
    requires
        n <= a.len(),
        n <= b.len(),
        a.len() <= a2.len(),
        b.len() <= b2.len(),
        forall|j: int| 0 <= j < a.len() ==> a2[j] == a[j],
        forall|j: int| 0 <= j < b.len() ==> b2[j] == b[j],
    ensures
        changed_among(a2, b2, threshold, n) == changed_among(a, b, threshold, n),
    decreases n,
{
    if n > 0 {
        lemma_changed_among_prefix(a2, b2, a, b, threshold, (n - 1) as nat);
    }
}

/// The composite's columns: BEFORE in the first `w`, then 16 columns of
/// #1A1A1A, DIFF in the next `w`, 16 more gap columns, then AFTER.
pub proof fn lemma_side_by_side_columns(before: ImageView, diff: ImageView, after: ImageView, x: int, y: int)
    requires
        0 <= x,
    ensures
        ({
            let w = before.width as int;
            let p = side_by_side_at(before, diff, after, x, y);
            &&& x < w ==> p == before.at(x, y)
            &&& w <= x < w + 16 ==> p == [0x1Au8, 0x1Au8, 0x1Au8, 0xFFu8]
            &&& w + 16 <= x < 2 * w + 16 ==> p == diff.at(x - w - 16, y)
            &&& 2 * w + 16 <= x < 2 * w + 32 ==> p == [0x1Au8, 0x1Au8, 0x1Au8, 0xFFu8]
            &&& 2 * w + 32 <= x ==> p == after.at(x - 2 * w - 32, y)
        }),
{
}
} // verus!
