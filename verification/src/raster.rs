//! An RGBA image held as plain values, the image-crate operations that the
//! comparison uses on it, and the layout steps built from them: padding an
//! image onto a larger canvas and placing panels side by side.

use vstd::prelude::*;

use crate::pixel::{gap_colour, spec_gap_colour, spec_pad_colour, Rgba};

verus! {

/// Gap in pixels between two panels of a composite.
pub const GAP: u32 = 16;

/// Whether an RGBA buffer of `width` by `height` pixels can be allocated:
/// its byte length must not exceed `isize::MAX`.
pub open spec fn fits(width: int, height: int) -> bool {
    4 * (width * height) <= isize::MAX
}

/// The mathematical content of an image: its dimensions and its pixels in
/// row-major order (x from 0 to width, then y from 0 to height).
pub struct ImageView {
    pub width: u32,
    pub height: u32,
    pub pixels: Seq<Rgba>,
}

impl ImageView {
    pub open spec fn wf(self) -> bool {
        &&& self.pixels.len() == self.width * self.height
        &&& fits(self.width as int, self.height as int)
    }

    /// The pixel in column `x` and row `y`.
    pub open spec fn at(self, x: int, y: int) -> Rgba {
        self.pixels[y * self.width + x]
    }

    pub open spec fn contains(self, x: int, y: int) -> bool {
        0 <= x < self.width && 0 <= y < self.height
    }
}

/// An image of `width` by `height` RGBA pixels in row-major order.
pub struct Image {
    width: u32,
    height: u32,
    pixels: Vec<Rgba>,
}

impl View for Image {
    type V = ImageView;

    closed spec fn view(&self) -> ImageView {
        ImageView { width: self.width, height: self.height, pixels: self.pixels@ }
    }
}

/// An image of the given size whose pixels are all `pixel`.
pub open spec fn uniform(width: u32, height: u32, pixel: Rgba) -> ImageView {
    ImageView { width, height, pixels: Seq::new((width * height) as nat, |i: int| pixel) }
}

/// `image::ImageBuffer::new` for RGBA pixels: a buffer of the given size with
/// every channel zero. It panics when the byte length overflows, which
/// `requires` rules out.
#[verifier::external_body]
pub(crate) fn blank_image(width: u32, height: u32) -> (img: Image)
    requires
        fits(width as int, height as int),
    ensures
        img@ == uniform(width, height, [0u8, 0u8, 0u8, 0u8]),
{
    let buf = image::RgbaImage::new(width, height);
    Image { width: buf.width(), height: buf.height(), pixels: buf.pixels().map(|p| p.0).collect() }
}

/// `image::ImageBuffer::from_pixel` for RGBA pixels: a buffer of the given size
/// whose every pixel is `pixel`. It panics when the byte length overflows,
/// which `requires` rules out.
#[verifier::external_body]
fn filled_image(width: u32, height: u32, pixel: Rgba) -> (img: Image)
    requires
        fits(width as int, height as int),
    ensures
        img@ == uniform(width, height, pixel),
{
    let buf = image::RgbaImage::from_pixel(width, height, image::Rgba(pixel));
    Image { width: buf.width(), height: buf.height(), pixels: buf.pixels().map(|p| p.0).collect() }
}

/// `image::imageops::replace`: copies `top` onto `bottom` with its top-left
/// corner at (`x`, `y`), clipped to `bottom`. A pixel of `bottom` covered by
/// `top` takes the covering pixel; every other pixel and the dimensions of
/// `bottom` are kept.
#[verifier::external_body]
fn replace(bottom: &mut Image, top: &Image, x: i64, y: i64)
    requires
        old(bottom)@.wf(),
        top@.wf(),
    ensures
        final(bottom)@.width == old(bottom)@.width,
        final(bottom)@.height == old(bottom)@.height,
        final(bottom)@.pixels.len() == old(bottom)@.pixels.len(),
        forall|bx: int, by: int|
            #![trigger final(bottom)@.at(bx, by)]
            old(bottom)@.contains(bx, by) ==> final(bottom)@.at(bx, by) == if top@.contains(
                bx - x,
                by - y,
            ) {
                top@.at(bx - x, by - y)
            } else {
                old(bottom)@.at(bx, by)
            },
{
    let mut canvas =
        image::RgbaImage::from_raw(bottom.width, bottom.height, bottom.pixels.concat()).unwrap();
    let layer = image::RgbaImage::from_raw(top.width, top.height, top.pixels.concat()).unwrap();
    image::imageops::replace(&mut canvas, &layer, x, y);
    bottom.pixels = canvas.pixels().map(|p| p.0).collect();
}

impl Image {
    /// Every image holds `width * height` pixels and fits in memory.
    #[verifier::type_invariant]
    spec fn well_formed(self) -> bool {
        self@.wf()
    }

    pub fn width(&self) -> (w: u32)
        ensures
            w == self@.width,
            self@.wf(),
    {
        proof {
            use_type_invariant(self);
        }
        self.width
    }

    pub fn height(&self) -> (h: u32)
        ensures
            h == self@.height,
            self@.wf(),
    {
        proof {
            use_type_invariant(self);
        }
        self.height
    }

    /// The pixels in row-major order.
    pub fn pixels(&self) -> (p: &Vec<Rgba>)
        ensures
            p@ == self@.pixels,
            self@.wf(),
    {
        proof {
            use_type_invariant(self);
        }
        &self.pixels
    }

    /// An image from its dimensions and its pixels in row-major order, or
    /// `None` when the number of pixels is not `width * height` or the image
    /// is too large to address.
    pub fn from_pixels(width: u32, height: u32, pixels: Vec<Rgba>) -> (img: Option<Image>)
        ensures
            img is Some <==> (pixels@.len() == width * height && fits(width as int, height as int)),
            img matches Some(i) ==> i@ == (ImageView { width, height, pixels: pixels@ }),
    {
        assert(width as u128 * height as u128 <= u32::MAX as u128 * u32::MAX as u128) by (nonlinear_arith);
        let area: u128 = width as u128 * height as u128;
        if pixels.len() as u128 == area && 4 * area <= isize::MAX as u128 {
            Some(Image { width, height, pixels })
        } else {
            None
        }
    }

    /// The image with the pixel at row-major position `i` set to `p`.
    pub(crate) fn with_pixel(self, i: usize, p: Rgba) -> (img: Image)
        requires
            i < self@.pixels.len(),
        ensures
            img@ == (ImageView { pixels: self@.pixels.update(i as int, p), ..self@ }),
    {
        proof {
            use_type_invariant(&self);
        }
        let Image { width, height, mut pixels } = self;
        pixels.set(i, p);
        Image { width, height, pixels }
    }

    /// A pixel-for-pixel copy.
    pub fn copy(&self) -> (img: Image)
        ensures
            img@ == self@,
    {
        proof {
            use_type_invariant(self);
        }
        let mut pixels: Vec<Rgba> = Vec::new();
        let n = self.pixels.len();
        for i in 0..n
            invariant
                n == self.pixels@.len(),
                pixels@ == self.pixels@.take(i as int),
        {
            pixels.push(self.pixels[i]);
            assert(self.pixels@.take(i + 1) =~= self.pixels@.take(i as int).push(self.pixels@[i as int]));
        }
        assert(self.pixels@.take(n as int) =~= self.pixels@);
        Image { width: self.width, height: self.height, pixels }
    }
}

/// Place `src` at the top-left of a `w`x`h` canvas filled with `bg`.
pub fn pad_to(src: &Image, w: u32, h: u32, bg: Rgba) -> (out: Image)
    requires
        fits(w as int, h as int),
    ensures
        out@.wf(),
        out@.width == w,
        out@.height == h,
        forall|x: int, y: int|
            #![trigger out@.at(x, y)]
            0 <= x < w && 0 <= y < h ==> out@.at(x, y) == if src@.contains(x, y) {
                src@.at(x, y)
            } else {
                bg
            },
{
    proof {
        use_type_invariant(src);
    }
    if src.width == w && src.height == h {
        return src.copy();
    }
    let mut out = filled_image(w, h, bg);
    proof {
        assert forall|x: int, y: int| 0 <= x < w && 0 <= y < h implies #[trigger] out@.at(x, y) == bg by {
            lemma_row_major_index(x, y, w as int, h as int);
        }
    }
    replace(&mut out, src, 0, 0);
    out
}

/// Row-major index of an in-bounds coordinate is in bounds.
pub proof fn lemma_row_major_index(x: int, y: int, w: int, h: int)
    requires
        0 <= x < w,
        0 <= y < h,
    ensures
        0 <= y * w + x < w * h,
{
    assert(0 <= y * w) by (nonlinear_arith)
        requires
            0 <= y,
            0 <= w,
    ;
    assert(y * w + x < w * h) by (nonlinear_arith)
        requires
            0 <= x < w,
            0 <= y < h,
    ;
}


/// The views of a sequence of panels.
pub open spec fn panel_views(panels: Seq<&Image>) -> Seq<ImageView> {
    panels.map_values(|p: &Image| p@)
}

/// Sum of the panels' widths.
pub open spec fn total_panel_width(ps: Seq<ImageView>) -> int
    decreases ps.len(),
{
    if ps.len() == 0 {
        0
    } else {
        total_panel_width(ps.drop_last()) + ps.last().width
    }
}

/// Width of the panels placed side by side with a gap between neighbours.
pub open spec fn strip_width(ps: Seq<ImageView>) -> int {
    if ps.len() == 0 {
        0
    } else {
        total_panel_width(ps) + GAP * (ps.len() - 1)
    }
}

/// Column at which the panel after `ps` starts: every panel of `ps` and the gap after it.
pub open spec fn strip_advance(ps: Seq<ImageView>) -> int {
    total_panel_width(ps) + GAP * ps.len()
}

/// Height of the tallest panel, 0 when there is none.
pub open spec fn strip_height(ps: Seq<ImageView>) -> int
    decreases ps.len(),
{
    if ps.len() == 0 {
        0
    } else {
        let rest = strip_height(ps.drop_last());
        if ps.last().height > rest {
            ps.last().height as int
        } else {
            rest
        }
    }
}

/// The pixel at (`x`, `y`) of the composite: the panel that covers it, placed
/// after the panels before it and a gap, or the gap colour where none does.
pub open spec fn strip_at(ps: Seq<ImageView>, x: int, y: int) -> Rgba
    decreases ps.len(),
{
    if ps.len() == 0 {
        spec_gap_colour()
    } else {
        let x0 = strip_advance(ps.drop_last());
        if ps.last().contains(x - x0, y) {
            ps.last().at(x - x0, y)
        } else {
            strip_at(ps.drop_last(), x, y)
        }
    }
}

/// The panels can be placed side by side: the composite's byte length fits
/// and no panel's width plus a gap overflows a `u32`.
pub open spec fn strip_fits(ps: Seq<ImageView>) -> bool {
    &&& strip_width(ps) <= u32::MAX
    &&& fits(strip_width(ps), strip_height(ps))
    &&& forall|k: int| 0 <= k < ps.len() ==> #[trigger] ps[k].width + GAP <= u32::MAX
}

pub proof fn lemma_total_panel_width_prefix(ps: Seq<ImageView>, i: int)
    requires
        0 <= i <= ps.len(),
    ensures
        total_panel_width(ps.take(i)) <= total_panel_width(ps),
    decreases ps.len(),
{
    if i < ps.len() {
        assert(ps.take(i) =~= ps.drop_last().take(i));
        lemma_total_panel_width_prefix(ps.drop_last(), i);
    } else {
        assert(ps.take(i) =~= ps);
    }
}

/// Concatenate panels horizontally with a coloured gap between them.
pub fn hcat(panels: &[&Image]) -> (out: Image)
    requires
        strip_fits(panel_views(panels@)),
    ensures
        out@.wf(),
        out@.width == strip_width(panel_views(panels@)),
        out@.height == strip_height(panel_views(panels@)),
        forall|x: int, y: int|
            #![trigger out@.at(x, y)]
            out@.contains(x, y) ==> out@.at(x, y) == strip_at(panel_views(panels@), x, y),
{
    let ghost ps = panel_views(panels@);
    let n = panels.len();
    let mut h: u32 = 0;
    for i in 0..n
        invariant
            n == panels@.len(),
            ps == panel_views(panels@),
            h == strip_height(ps.take(i as int)),
    {
        proof {
            assert(ps.take(i + 1).drop_last() =~= ps.take(i as int));
        }
        if panels[i].height() > h {
            h = panels[i].height();
        }
    }
    assert(ps.take(n as int) =~= ps);
    let mut sum_w: u32 = 0;
    for i in 0..n
        invariant
            n == panels@.len(),
            ps == panel_views(panels@),
            strip_fits(ps),
            sum_w == total_panel_width(ps.take(i as int)),
    {
        proof {
            assert(ps.take(i + 1).drop_last() =~= ps.take(i as int));
            lemma_total_panel_width_prefix(ps, i + 1);
        }
        sum_w = sum_w + panels[i].width();
    }
    let gaps: u32 = if n == 0 { 0 } else { GAP * ((n - 1) as u32) };
    let total_w: u32 = sum_w + gaps;
    let mut out = filled_image(total_w, h, gap_colour());
    proof {
        assert forall|x: int, y: int| #[trigger] out@.contains(x, y) implies out@.at(x, y)
            == strip_at(ps.take(0), x, y) by {
            lemma_row_major_index(x, y, total_w as int, h as int);
        }
    }
    let mut x: i64 = 0;
    for k in 0..n
        invariant
            n == panels@.len(),
            ps == panel_views(panels@),
            strip_fits(ps),
            out@.wf(),
            out@.width == total_w,
            out@.height == h,
            x == strip_advance(ps.take(k as int)),
            forall|bx: int, by: int|
                #![trigger out@.at(bx, by)]
                out@.contains(bx, by) ==> out@.at(bx, by) == strip_at(ps.take(k as int), bx, by),
    {
        let p: &Image = panels[k];
        proof {
            use_type_invariant(p);
            assert(ps.take(k + 1).drop_last() =~= ps.take(k as int));
            assert(ps[k as int] == p@);
            lemma_total_panel_width_prefix(ps, k + 1);
        }
        replace(&mut out, p, x, 0);
        assert(p@.width + GAP <= u32::MAX) by {
            assert(ps[k as int].width + GAP <= u32::MAX);
        }
        x = x + (p.width() + GAP) as i64;
    }
    assert(ps.take(n as int) =~= ps);
    out
}

/// A row-major position splits into its column and its row.
pub proof fn lemma_row_major_split(i: int, w: int, h: int)
    requires
        0 <= w,
        0 <= h,
        0 <= i < w * h,
    ensures
        w > 0,
        0 <= i % w < w,
        0 <= i / w < h,
        (i / w) * w + i % w == i,
{
    assert(w > 0) by (nonlinear_arith)
        requires
            0 <= w,
            0 <= h,
            0 <= i < w * h,
    ;
    vstd::arithmetic::div_mod::lemma_fundamental_div_mod(i, w);
    vstd::arithmetic::div_mod::lemma_mod_pos_bound(i, w);
    vstd::arithmetic::div_mod::lemma_div_pos_is_pos(i, w);
    let y = i / w;
    let x = i % w;
    assert(y * w == w * y) by (nonlinear_arith);
    assert(y < h) by (nonlinear_arith)
        requires
            i == w * y + x,
            0 <= x < w,
            i < w * h,
            w > 0,
    ;
}

/// The pixel that padding puts at (`x`, `y`): that of `src` where `src`
/// covers it, transparent black elsewhere.
pub open spec fn pad_pixel(src: ImageView, x: int, y: int) -> Rgba {
    if src.contains(x, y) {
        src.at(x, y)
    } else {
        spec_pad_colour()
    }
}

/// `src` aligned top-left on a transparent `width` by `height` canvas.
pub open spec fn padded(src: ImageView, width: u32, height: u32) -> ImageView {
    ImageView {
        width,
        height,
        pixels: Seq::new(
            (width * height) as nat,
            |i: int| pad_pixel(src, i % (width as int), i / (width as int)),
        ),
    }
}

/// An image that agrees pixel by pixel with `padded(src, ..)` is `padded(src, ..)`.
pub proof fn lemma_padded_from_pixels(img: ImageView, src: ImageView)
    requires
        img.wf(),
        forall|x: int, y: int|
            #![trigger img.at(x, y)]
            img.contains(x, y) ==> img.at(x, y) == pad_pixel(src, x, y),
    ensures
        img == padded(src, img.width, img.height),
{
    let p = padded(src, img.width, img.height);
    assert forall|i: int| 0 <= i < img.pixels.len() implies img.pixels[i] == #[trigger] p.pixels[i] by {
        lemma_row_major_split(i, img.width as int, img.height as int);
        let x = i % (img.width as int);
        let y = i / (img.width as int);
        assert(img.contains(x, y));
        assert(img.at(x, y) == img.pixels[i]);
    }
    assert(img.pixels =~= p.pixels);
}

/// Every panel appears intact in the composite: its pixel (`x`, `y`) is at
/// column `x` past the columns of the panels and gaps before it, row `y`.
pub proof fn lemma_strip_shows_panel(ps: Seq<ImageView>, k: int, x: int, y: int)
    requires
        0 <= k < ps.len(),
        ps[k].contains(x, y),
    ensures
        strip_at(ps, strip_advance(ps.take(k)) + x, y) == ps[k].at(x, y),
    decreases ps.len(),
{
    let n = ps.len() - 1;
    if k == n {
        assert(ps.take(k) =~= ps.drop_last());
    } else {
        let rest = ps.drop_last();
        assert(rest.take(k) =~= ps.take(k));
        assert(rest.take(k + 1).drop_last() =~= ps.take(k));
        assert(rest.take(k + 1).last() == ps[k]);
        lemma_total_panel_width_prefix(rest, k + 1);
        lemma_strip_shows_panel(rest, k, x, y);
    }
}

/// Padding an image to its own size leaves it as it is.
pub proof fn lemma_pad_to_own_size(src: ImageView)
    requires
        src.wf(),
    ensures
        padded(src, src.width, src.height) == src,
{
    let p = padded(src, src.width, src.height);
    assert forall|i: int| 0 <= i < src.pixels.len() implies #[trigger] p.pixels[i] == src.pixels[i] by {
        lemma_row_major_split(i, src.width as int, src.height as int);
    }
    assert(p.pixels =~= src.pixels);
}
} // verus!
