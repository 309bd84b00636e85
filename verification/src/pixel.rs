//! Per-pixel rules of the comparison: the channel distance between two RGBA
//! pixels and the colour that the DIFF panel shows for a pixel.

use vstd::prelude::*;

verus! {

/// An RGBA pixel, one byte per channel.
pub type Rgba = [u8; 4];

/// Absolute difference of two channel values.
pub open spec fn channel_distance(a: u8, b: u8) -> u8 {
    if a >= b { (a - b) as u8 } else { (b - a) as u8 }
}

pub open spec fn max_u8(a: u8, b: u8) -> u8 {
    if a >= b { a } else { b }
}

/// The largest absolute difference over the four RGBA channels.
pub open spec fn spec_pixel_delta(a: Rgba, b: Rgba) -> u8 {
    max_u8(
        max_u8(channel_distance(a[0], b[0]), channel_distance(a[1], b[1])),
        max_u8(channel_distance(a[2], b[2]), channel_distance(a[3], b[3])),
    )
}

/// The colour that marks a changed pixel (#FF2D87, opaque).
pub open spec fn spec_pink() -> Rgba {
    [0xFFu8, 0x2Du8, 0x87u8, 0xFFu8]
}

/// The colour of the gap between panels of a composite (#1A1A1A, opaque).
pub open spec fn spec_gap_colour() -> Rgba {
    [0x1Au8, 0x1Au8, 0x1Au8, 0xFFu8]
}

/// The colour of the padding added to the smaller of two inputs (transparent black).
pub open spec fn spec_pad_colour() -> Rgba {
    [0u8, 0u8, 0u8, 0u8]
}

/// Integer luma of a pixel: 0.300 R + 0.586 G + 0.113 B, as 77/256, 150/256 and 29/256.
pub open spec fn luma(p: Rgba) -> int {
    (77 * p[0] + 150 * p[1] + 29 * p[2]) / 256
}

/// Grey level of an unchanged pixel: the luma of the AFTER pixel, halved and
/// lifted into the light half of the range.
pub open spec fn context_level(p: Rgba) -> int {
    128 + luma(p) / 2
}

/// What the DIFF panel shows for a BEFORE pixel `a` and an AFTER pixel `b`.
pub open spec fn spec_diff_pixel(a: Rgba, b: Rgba, threshold: u8) -> Rgba {
    if spec_pixel_delta(a, b) > threshold {
        spec_pink()
    } else {
        spec_context_pixel(b)
    }
}

/// Opaque grey of the context level of `p`.
pub open spec fn spec_context_pixel(p: Rgba) -> Rgba {
    let v = context_level(p) as u8;
    [v, v, v, 0xFFu8]
}

/// Whether the pixel pair counts as changed at the given threshold.
pub open spec fn is_changed(a: Rgba, b: Rgba, threshold: u8) -> bool {
    spec_pixel_delta(a, b) > threshold
}

pub fn pink() -> (p: Rgba)
    ensures
        p == spec_pink(),
{
    [0xFF, 0x2D, 0x87, 0xFF]
}

pub fn gap_colour() -> (p: Rgba)
    ensures
        p == spec_gap_colour(),
{
    [0x1a, 0x1a, 0x1a, 0xFF]
}

pub fn pad_colour() -> (p: Rgba)
    ensures
        p == spec_pad_colour(),
{
    [0x00, 0x00, 0x00, 0x00]
}

fn abs_diff(a: u8, b: u8) -> (d: u8)
    ensures
        d == channel_distance(a, b),
{
    if a >= b {
        a - b
    } else {
        b - a
    }
}

fn max(a: u8, b: u8) -> (m: u8)
    ensures
        m == max_u8(a, b),
{
    if a >= b {
        a
    } else {
        b
    }
}

/// Per-pixel max absolute channel difference across RGBA.
pub fn pixel_delta(a: &[u8; 4], b: &[u8; 4]) -> (d: u8)
    ensures
        d == spec_pixel_delta(*a, *b),
        forall|k: int| 0 <= k < 4 ==> d >= #[trigger] abs_int(a[k] as int - b[k] as int),
        exists|k: int| 0 <= k < 4 && d == #[trigger] abs_int(a[k] as int - b[k] as int),
{
    proof {
        lemma_pixel_delta_is_largest_channel_change(*a, *b);
    }
    let d0 = abs_diff(a[0], b[0]);
    let d1 = abs_diff(a[1], b[1]);
    let d2 = abs_diff(a[2], b[2]);
    let d3 = abs_diff(a[3], b[3]);
    max(max(d0, d1), max(d2, d3))
}

/// The pixel that the DIFF panel shows: pink where the pair differs by more
/// than `threshold`, else a light grey of the AFTER pixel.
pub fn diff_pixel(a: &[u8; 4], b: &[u8; 4], threshold: u8) -> (p: Rgba)
    ensures
        p == spec_diff_pixel(*a, *b, threshold),
{
    if pixel_delta(a, b) > threshold {
        pink()
    } else {
        context_pixel(b)
    }
}

/// Lightened greyscale of a pixel as quiet context: luma computed with integer
/// weights, halved and lifted into 128..=255, alpha opaque.
pub fn context_pixel(b: &[u8; 4]) -> (p: Rgba)
    ensures
        p == spec_context_pixel(*b),
{
    let r = b[0] as u32;
    let g = b[1] as u32;
    let bl = b[2] as u32;
    let sum: u32 = r * 77 + g * 150 + bl * 29;
    let luma: u32 = sum >> 8;
    assert(sum >> 8 == sum / 256) by (bit_vector);
    proof {
        lemma_context_level_bounds(*b);
    }
    let level: u32 = 128 + luma / 2;
    let v: u8 = if level < 255 { level as u8 } else { 255 };
    [v, v, v, 0xFF]
}

/// An unchanged pixel is shown as a light grey: its level lies in 128..=255.
pub proof fn lemma_context_level_bounds(p: Rgba)
    ensures
        128 <= context_level(p) <= 255,
        0 <= luma(p) <= 255,
{
    assert(77 * p[0] + 150 * p[1] + 29 * p[2] <= 256 * 255);
}

/// The distance between two pixels does not depend on their order.
pub proof fn lemma_pixel_delta_symmetric(a: Rgba, b: Rgba)
    ensures
        spec_pixel_delta(a, b) == spec_pixel_delta(b, a),
{
}

/// A pixel is at distance zero from itself, and only from itself.
pub proof fn lemma_pixel_delta_zero(a: Rgba, b: Rgba)
    ensures
        (spec_pixel_delta(a, b) == 0) <==> (a == b),
{
    if spec_pixel_delta(a, b) == 0 {
        broadcast use vstd::array::axiom_array_ext_equal;
        assert(a =~= b);
    }
}


/// Absolute value of an integer.
pub open spec fn abs_int(v: int) -> int {
    if v >= 0 { v } else { -v }
}

/// The distance between two pixels is the largest change of any one of the
/// four channels: at least each channel's change, and equal to one of them.
pub proof fn lemma_pixel_delta_is_largest_channel_change(a: Rgba, b: Rgba)
    ensures
        forall|k: int|
            0 <= k < 4 ==> spec_pixel_delta(a, b) >= #[trigger] abs_int(a[k] as int - b[k] as int),
        exists|k: int|
            0 <= k < 4 && spec_pixel_delta(a, b) == #[trigger] abs_int(a[k] as int - b[k] as int),
{
    let d = spec_pixel_delta(a, b) as int;
    let c0 = abs_int(a[0] as int - b[0] as int);
    let c1 = abs_int(a[1] as int - b[1] as int);
    let c2 = abs_int(a[2] as int - b[2] as int);
    let c3 = abs_int(a[3] as int - b[3] as int);
    assert(d >= c0 && d >= c1 && d >= c2 && d >= c3);
    assert forall|k: int| 0 <= k < 4 implies d >= #[trigger] abs_int(a[k] as int - b[k] as int) by {
        if k == 0 {
        } else if k == 1 {
        } else if k == 2 {
        } else {
        }
    }
    if d == c0 {
        assert(d == abs_int(a[0] as int - b[0] as int));
    } else if d == c1 {
        assert(d == abs_int(a[1] as int - b[1] as int));
    } else if d == c2 {
        assert(d == abs_int(a[2] as int - b[2] as int));
    } else {
        assert(d == abs_int(a[3] as int - b[3] as int));
    }
}

/// A pixel counts as changed at a threshold exactly when some channel changed
/// by more than the threshold.
pub proof fn lemma_changed_iff_some_channel_exceeds(a: Rgba, b: Rgba, threshold: u8)
    ensures
        is_changed(a, b, threshold) <==> exists|k: int|
            0 <= k < 4 && #[trigger] abs_int(a[k] as int - b[k] as int) > threshold,
{
    lemma_pixel_delta_is_largest_channel_change(a, b);
}

/// The DIFF panel shows #FF2D87 for a changed pixel and, for an unchanged one,
/// an opaque neutral grey (equal red, green and blue) in the light half, 128..=255.
pub proof fn lemma_diff_pixel_colours(a: Rgba, b: Rgba, threshold: u8)
    ensures
        is_changed(a, b, threshold) ==> spec_diff_pixel(a, b, threshold) == [255u8, 45u8, 135u8, 255u8],
        !is_changed(a, b, threshold) ==> {
            let p = spec_diff_pixel(a, b, threshold);
            &&& p[0] == p[1] && p[1] == p[2]
            &&& p[3] == 255
            &&& 128 <= p[0]
        },
{
    lemma_context_level_bounds(b);
}

/// Unchanged pixels keep the brightness order of the AFTER image: a pixel
/// whose channels are each at least those of another is shown no darker.
pub proof fn lemma_context_preserves_brightness_order(p: Rgba, q: Rgba)
    requires
        p[0] <= q[0],
        p[1] <= q[1],
        p[2] <= q[2],
    ensures
        spec_context_pixel(p)[0] <= spec_context_pixel(q)[0],
{
    lemma_context_level_bounds(p);
    lemma_context_level_bounds(q);
    let sp = 77 * p[0] + 150 * p[1] + 29 * p[2];
    let sq = 77 * q[0] + 150 * q[1] + 29 * q[2];
    assert(sp <= sq);
    assert(sp / 256 <= sq / 256) by (nonlinear_arith)
        requires
            0 <= sp <= sq,
    ;
}
} // verus!
