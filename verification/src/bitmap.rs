//! In-memory RGBA bitmaps and the pixel work the core does itself:
//! alpha-compositing onto a solid background color, stacking rendered PDF
//! pages into one image, and the resize/composite pipeline applied to every
//! decoded image. Pixel decoding and resampling themselves are the image
//! crate's work, called through trusted wrappers.
use vstd::arithmetic::div_mod::lemma_fundamental_div_mod_converse;
use vstd::prelude::*;

use crate::dims::spec_calculate_dimensions;
use crate::{KvError, Rgba, ResizeMode, RpixContext};

verus! {

/// A decoded image: tightly packed RGBA bytes, four per pixel, rows top to
/// bottom.
#[derive(Debug)]
pub struct Bitmap {
    pub width: u32,
    pub height: u32,
    pub data: Vec<u8>,
}

impl Bitmap {
    /// The byte buffer holds exactly four bytes per pixel.
    pub open spec fn wf(&self) -> bool {
        self.data@.len() == 4 * (self.width as int) * (self.height as int)
    }
}

/// Linear blend of a source channel over a background channel at a given
/// alpha: `(src * alpha + bg * (255 - alpha)) / 255`.
pub open spec fn blend_channel(s: int, b: int, a: int) -> int {
    (s * a + b * (255 - a)) / 255
}

/// The background color channel under byte offset `k` of a pixel.
pub open spec fn bg_channel(c: Rgba, k: int) -> u8 {
    if k == 0 {
        c.r
    } else if k == 1 {
        c.g
    } else {
        c.b
    }
}

/// Byte `i` of an RGBA buffer composited onto a solid color: opaque pixels
/// copied, fully transparent pixels replaced by the color, others blended
/// per channel; every output alpha byte is 255.
pub open spec fn composited_byte(d: Seq<u8>, c: Rgba, i: int) -> u8 {
    let p = 4 * (i / 4);
    let alpha = d[p + 3];
    if i % 4 == 3 {
        255
    } else if alpha == 255 {
        d[i]
    } else if alpha == 0 {
        bg_channel(c, i % 4)
    } else {
        blend_channel(d[i] as int, bg_channel(c, i % 4) as int, alpha as int) as u8
    }
}

/// A whole RGBA buffer composited onto a solid color.
pub open spec fn composited(d: Seq<u8>, c: Rgba) -> Seq<u8> {
    Seq::new(d.len(), |i: int| composited_byte(d, c, i))
}

/// Composite an image onto a solid background color. The output has the
/// input's dimensions, every pixel fully opaque, exactly as `composited`
/// says. Pure; never fails.
pub fn add_background(img: &Bitmap, color: &Rgba) -> (r: Bitmap)
    requires
        img.wf(),
    ensures
        r.wf(),
        r.width == img.width,
        r.height == img.height,
        r.data@ == composited(img.data@, *color),
{
    let ghost d = img.data@;
    let n = img.data.len();
    let mut out: Vec<u8> = Vec::new();
    let mut p: usize = 0;
    proof {
        assert(4 * ((img.width as int) * (img.height as int)) == 4 * (img.width as int) * (
        img.height as int)) by (nonlinear_arith);
    }
    let pixels: usize = n / 4;
    while p < pixels
        invariant
            img.wf(),
            d == img.data@,
            n == d.len(),
            n == 4 * pixels,
            0 <= p <= pixels,
            out@.len() == 4 * p,
            forall|i: int| 0 <= i < 4 * p ==> out@[i] == composited_byte(d, *color, i),
        decreases pixels - p,
    {
        let base: usize = 4 * p;
        let alpha: u8 = img.data[base + 3];
        proof {
            lemma_pixel_offsets(p as int);
        }
        if alpha == 255 {
            out.push(img.data[base]);
            out.push(img.data[base + 1]);
            out.push(img.data[base + 2]);
            out.push(255);
        } else if alpha == 0 {
            out.push(color.r);
            out.push(color.g);
            out.push(color.b);
            out.push(255);
        } else {
            out.push(blend(img.data[base], color.r, alpha));
            out.push(blend(img.data[base + 1], color.g, alpha));
            out.push(blend(img.data[base + 2], color.b, alpha));
            out.push(255);
        }
        p = p + 1;
    }
    proof {
        assert(out@ =~= composited(d, *color));
    }
    Bitmap { width: img.width, height: img.height, data: out }
}

/// Byte offsets `4p .. 4p+3` all belong to pixel `p`: their quotient by 4
/// is `p` and their remainders are 0 through 3.
proof fn lemma_pixel_offsets(p: int)
    requires
        p >= 0,
    ensures
        (4 * p) / 4 == p && (4 * p) % 4 == 0,
        (4 * p + 1) / 4 == p && (4 * p + 1) % 4 == 1,
        (4 * p + 2) / 4 == p && (4 * p + 2) % 4 == 2,
        (4 * p + 3) / 4 == p && (4 * p + 3) % 4 == 3,
{
    lemma_fundamental_div_mod_converse(4 * p, 4, p, 0);
    lemma_fundamental_div_mod_converse(4 * p + 1, 4, p, 1);
    lemma_fundamental_div_mod_converse(4 * p + 2, 4, p, 2);
    lemma_fundamental_div_mod_converse(4 * p + 3, 4, p, 3);
}

/// One blended channel, exactly `blend_channel`.
fn blend(s: u8, b: u8, a: u8) -> (r: u8)
    ensures
        r as int == blend_channel(s as int, b as int, a as int),
{
    proof {
        assert((s as int) * (a as int) + (b as int) * (255 - a as int) <= 255 * 255) by (
        nonlinear_arith)
            requires
                0 <= s <= 255,
                0 <= b <= 255,
                0 <= a <= 255,
        ;
        assert((s as int) * (a as int) >= 0 && (b as int) * (255 - a as int) >= 0) by (
        nonlinear_arith)
            requires
                0 <= s,
                0 <= b,
                0 <= a <= 255,
        ;
    }
    let v: u32 = ((s as u32) * (a as u32) + (b as u32) * (255 - a as u32)) / 255;
    v as u8
}

/// Compositing is idempotent: its output is fully opaque, so compositing a
/// second time, with the same or any other color, changes nothing.
pub proof fn lemma_composite_idempotent(d: Seq<u8>, c1: Rgba, c2: Rgba)
    requires
        d.len() % 4 == 0,
    ensures
        composited(composited(d, c1), c2) == composited(d, c1),
{
    let e = composited(d, c1);
    assert forall|i: int| 0 <= i < e.len() implies composited(e, c2)[i] == e[i] by {
        let p = 4 * (i / 4);
        lemma_pixel_offsets(i / 4);
        assert(p + 3 < e.len()) by {
            lemma_fundamental_div_mod_converse(d.len() as int, 4, d.len() as int / 4, 0);
            assert(i / 4 < d.len() / 4);
            assert(4 * (i / 4) + 4 <= 4 * (d.len() / 4)) by (nonlinear_arith)
                requires
                    i / 4 < d.len() / 4,
            ;
        }
        assert(e[p + 3] == 255);
    }
    assert(composited(e, c2) =~= e);
}


/// The combined height of a stack of pages.
pub open spec fn total_height(ps: Seq<Bitmap>) -> int
    decreases ps.len(),
{
    if ps.len() == 0 {
        0
    } else {
        ps[0].height + total_height(ps.drop_first())
    }
}

/// The widest page width in a stack.
pub open spec fn max_width(ps: Seq<Bitmap>) -> int
    decreases ps.len(),
{
    if ps.len() == 0 {
        0
    } else {
        let m = max_width(ps.drop_first());
        if ps[0].width >= m {
            ps[0].width as int
        } else {
            m
        }
    }
}

/// Byte `i` of one page's rows padded on the right to width `w`: bytes of
/// the page where the column lies inside it, zero (transparent black)
/// in the padding.
pub open spec fn padded_row_byte(pg: Bitmap, w: int, i: int) -> u8 {
    let y = (i / 4) / w;
    let x = (i / 4) % w;
    let k = i % 4;
    if x < pg.width {
        pg.data@[4 * (y * (pg.width as int) + x) + k]
    } else {
        0
    }
}

/// One page's pixel rows padded on the right to width `w`.
pub open spec fn padded_page(pg: Bitmap, w: int) -> Seq<u8> {
    Seq::new((4 * w * (pg.height as int)) as nat, |i: int| padded_row_byte(pg, w, i))
}

/// Pages stacked top to bottom, each padded to width `w`.
pub open spec fn stacked(ps: Seq<Bitmap>, w: int) -> Seq<u8>
    decreases ps.len(),
{
    if ps.len() == 0 {
        Seq::empty()
    } else {
        padded_page(ps[0], w) + stacked(ps.drop_first(), w)
    }
}

/// `total_height` distributes over splitting the stack.
proof fn lemma_total_height_split(ps: Seq<Bitmap>, i: int)
    requires
        0 <= i <= ps.len(),
    ensures
        total_height(ps) == total_height(ps.subrange(0, i)) + total_height(
            ps.subrange(i, ps.len() as int),
        ),
    decreases i,
{
    if i == 0 {
        assert(ps.subrange(0, ps.len() as int) =~= ps);
    } else {
        lemma_total_height_split(ps.drop_first(), i - 1);
        assert(ps.drop_first().subrange(0, i - 1) =~= ps.subrange(0, i).drop_first());
        assert(ps.drop_first().subrange(i - 1, ps.drop_first().len() as int) =~= ps.subrange(
            i,
            ps.len() as int,
        ));
    }
}

/// Page heights are nonnegative, so is every stack's total height.
proof fn lemma_total_height_nonneg(ps: Seq<Bitmap>)
    ensures
        total_height(ps) >= 0,
    decreases ps.len(),
{
    if ps.len() > 0 {
        lemma_total_height_nonneg(ps.drop_first());
    }
}

/// Every page's width is at most the stack's `max_width`, which is itself
/// nonnegative.
proof fn lemma_max_width_bounds(ps: Seq<Bitmap>)
    ensures
        max_width(ps) >= 0,
        forall|i: int| 0 <= i < ps.len() ==> (#[trigger] ps[i].width) <= max_width(ps),
    decreases ps.len(),
{
    if ps.len() > 0 {
        lemma_max_width_bounds(ps.drop_first());
        assert forall|i: int| 0 <= i < ps.len() implies (#[trigger] ps[i].width) <= max_width(
            ps,
        ) by {
            if i > 0 {
                assert(ps.drop_first()[i - 1] == ps[i]);
            }
        }
    }
}

/// The stacked buffer holds exactly `4 * w` bytes per stacked row.
proof fn lemma_stacked_len(ps: Seq<Bitmap>, w: int)
    requires
        w >= 0,
    ensures
        stacked(ps, w).len() == 4 * w * total_height(ps),
    decreases ps.len(),
{
    if ps.len() == 0 {
    } else {
        lemma_stacked_len(ps.drop_first(), w);
        lemma_total_height_nonneg(ps.drop_first());
        assert(4 * w * ((ps[0].height as int) + total_height(ps.drop_first())) == 4 * w * (
        ps[0].height as int) + 4 * w * total_height(ps.drop_first())) by (nonlinear_arith);
    }
}

/// Appending one page to a stack appends its padded rows.
proof fn lemma_stacked_snoc(ps: Seq<Bitmap>, w: int, i: int)
    requires
        0 <= i < ps.len(),
    ensures
        stacked(ps.subrange(0, i + 1), w) == stacked(ps.subrange(0, i), w) + padded_page(
            ps[i],
            w,
        ),
    decreases i,
{
    if i == 0 {
        assert(ps.subrange(0, 1).drop_first() =~= Seq::<Bitmap>::empty());
        assert(ps.subrange(0, 0) =~= Seq::<Bitmap>::empty());
        assert(stacked(ps.subrange(0, 1), w) =~= padded_page(ps[0], w) + Seq::empty());
        assert(padded_page(ps[0], w) + Seq::empty() =~= padded_page(ps[0], w));
        assert(Seq::<u8>::empty() + padded_page(ps[0], w) =~= padded_page(ps[0], w));
    } else {
        lemma_stacked_snoc(ps.drop_first(), w, i - 1);
        assert(ps.drop_first().subrange(0, i) =~= ps.subrange(0, i + 1).drop_first());
        assert(ps.drop_first().subrange(0, i - 1) =~= ps.subrange(0, i).drop_first());
        assert(ps.drop_first()[i - 1] == ps[i]);
        assert(stacked(ps.subrange(0, i + 1), w) =~= padded_page(ps[0], w) + stacked(
            ps.subrange(0, i + 1).drop_first(),
            w,
        ));
        assert(padded_page(ps[0], w) + (stacked(ps.subrange(0, i).drop_first(), w)
            + padded_page(ps[i], w)) =~= (padded_page(ps[0], w) + stacked(
            ps.subrange(0, i).drop_first(),
            w,
        )) + padded_page(ps[i], w));
    }
}

/// One page's rows padded on the right to width `w`, exactly `padded_page`.
fn pad_page(pg: &Bitmap, w: u32) -> (r: Vec<u8>)
    requires
        pg.wf(),
        pg.width <= w,
        4 * (w as int) * (pg.height as int) <= usize::MAX,
    ensures
        r@ == padded_page(*pg, w as int),
{
    let mut out: Vec<u8> = Vec::new();
    let mut y: u32 = 0;
    let dlen = pg.data.len();
    proof {
        lemma_mul_le_4(w as int, y as int, pg.height as int);
    }
    while y < pg.height
        invariant
            pg.wf(),
            pg.data@.len() <= usize::MAX,
            pg.width <= w,
            4 * (w as int) * (pg.height as int) <= usize::MAX,
            0 <= y <= pg.height,
            out@.len() == 4 * ((w as int) * (y as int)),
            forall|i: int| 0 <= i < out@.len() ==> out@[i] == padded_row_byte(*pg, w as int, i),
        decreases pg.height - y,
    {
        let mut x: u32 = 0;
        while x < w
            invariant
                pg.wf(),
                pg.data@.len() <= usize::MAX,
                pg.width <= w,
                4 * (w as int) * (pg.height as int) <= usize::MAX,
                0 <= y < pg.height,
                0 <= x <= w,
                out@.len() == 4 * ((w as int) * (y as int)) + 4 * (x as int),
                forall|i: int|
                    0 <= i < out@.len() ==> out@[i] == padded_row_byte(*pg, w as int, i),
            decreases w - x,
        {
            let ghost gp = (w as int) * (y as int) + (x as int);
            proof {
                lemma_mul_le_4(w as int, y as int + 1, pg.height as int);
                assert((w as int) * (y as int) + (w as int) == (w as int) * (y as int + 1)) by (
                nonlinear_arith);
                lemma_pixel_offsets(gp);
                lemma_fundamental_div_mod_converse(gp, w as int, y as int, x as int);
            }
            let p: usize = (w as usize) * (y as usize) + (x as usize);
            if x < pg.width {
                proof {
                    assert((pg.width as int) * (y as int) + (x as int) < (pg.width as int) * (
                    pg.height as int)) by (nonlinear_arith)
                        requires
                            0 <= x < pg.width,
                            0 <= y < pg.height,
                    ;
                    lemma_fundamental_div_mod_converse(
                        (pg.width as int) * (y as int) + (x as int),
                        pg.width as int,
                        y as int,
                        x as int,
                    );
                    assert(4 * ((pg.width as int) * (pg.height as int)) == 4 * (pg.width as int)
                        * (pg.height as int)) by (nonlinear_arith);
                    assert((pg.width as int) * (pg.height as int) >= 0 && (pg.width as int) * (
                    y as int) == (y as int) * (pg.width as int)) by (nonlinear_arith);
                }
                let sp: usize = (pg.width as usize) * (y as usize) + (x as usize);
                let b0 = pg.data[4 * sp];
                let b1 = pg.data[4 * sp + 1];
                let b2 = pg.data[4 * sp + 2];
                let b3 = pg.data[4 * sp + 3];
                out.push(b0);
                out.push(b1);
                out.push(b2);
                out.push(b3);
                proof {
                    lemma_padded_byte_values(*pg, w as int, y as int, x as int);
                    assert(forall|i: int|
                        0 <= i < out@.len() ==> out@[i] == padded_row_byte(*pg, w as int, i));
                }
            } else {
                out.push(0);
                out.push(0);
                out.push(0);
                out.push(0);
                proof {
                    lemma_padded_byte_values(*pg, w as int, y as int, x as int);
                    assert(forall|i: int|
                        0 <= i < out@.len() ==> out@[i] == padded_row_byte(*pg, w as int, i));
                }
            }
            x = x + 1;
        }
        proof {
            assert(4 * ((w as int) * (y as int)) + 4 * (w as int) == 4 * ((w as int) * (
            y as int + 1))) by (nonlinear_arith);
        }
        y = y + 1;
    }
    proof {
        assert(4 * ((w as int) * (pg.height as int)) == 4 * (w as int) * (pg.height as int)) by (
        nonlinear_arith);
        assert(out@ =~= padded_page(*pg, w as int));
    }
    out
}

/// The four bytes of the stacked pixel at row `y`, column `x` come from the
/// page when the column is inside it, and are zero otherwise.
proof fn lemma_padded_byte_values(pg: Bitmap, w: int, y: int, x: int)
    requires
        w > 0,
        0 <= y,
        0 <= x < w,
    ensures
        forall|k: int|
            0 <= k < 4 ==> #[trigger] padded_row_byte(pg, w, 4 * (w * y + x) + k) == (if x
                < pg.width {
                pg.data@[4 * (y * (pg.width as int) + x) + k]
            } else {
                0
            }),
{
    let gp = w * y + x;
    lemma_pixel_offsets(gp);
    lemma_fundamental_div_mod_converse(gp, w, y, x);
    assert forall|k: int|
        0 <= k < 4 implies #[trigger] padded_row_byte(pg, w, 4 * gp + k) == (if x < pg.width {
        pg.data@[4 * (y * (pg.width as int) + x) + k]
    } else {
        0
    }) by {
        assert((4 * gp + k) / 4 == gp && (4 * gp + k) % 4 == k);
    }
}

/// `x * y <= x * z` for nonnegative `x` and `y <= z`, scaled by 4.
proof fn lemma_mul_le_4(a: int, b: int, c: int)
    requires
        a >= 0,
        0 <= b <= c,
    ensures
        4 * (a * b) <= 4 * (a * c),
        4 * (a * b) == 4 * a * b,
        4 * (a * c) == 4 * a * c,
        a * b >= 0,
{
    assert(4 * (a * b) <= 4 * (a * c) && 4 * (a * b) == 4 * a * b && 4 * (a * c) == 4 * a * c
        && a * b >= 0) by (nonlinear_arith)
        requires
            a >= 0,
            0 <= b <= c,
    ;
}

/// Stack rendered pages vertically into one image: the width is the widest
/// page's, the height the sum of heights, narrower pages padded on the
/// right with transparent pixels. An empty stack is a parse error; a stack
/// whose combined size exceeds what a bitmap can hold is a conversion
/// error; anything else succeeds.
pub fn stack_vertical(pages: &Vec<Bitmap>) -> (r: Result<Bitmap, KvError>)
    requires
        forall|i: int| 0 <= i < pages@.len() ==> (#[trigger] pages@[i]).wf(),
    ensures
        match r {
            Ok(b) => {
                &&& pages@.len() > 0
                &&& b.wf()
                &&& b.width as int == max_width(pages@)
                &&& b.height as int == total_height(pages@)
                &&& b.data@ == stacked(pages@, max_width(pages@))
            },
            Err(e) => (pages@.len() == 0 && e == KvError::ParseError) || (pages@.len() > 0 && e
                == KvError::ConversionError && (total_height(pages@) > u32::MAX || 4 * max_width(
                pages@,
            ) * total_height(pages@) > usize::MAX)),
        },
{
    if pages.len() == 0 {
        return Err(KvError::ParseError);
    }
    let ghost ps = pages@;
    let mut mw: u32 = 0;
    let mut i: usize = 0;
    while i < pages.len()
        invariant
            ps == pages@,
            0 <= i <= ps.len(),
            mw as int == max_width(ps.subrange(0, i as int)),
        decreases ps.len() - i,
    {
        proof {
            lemma_max_prefix_snoc(ps, i as int);
        }
        let pw = pages[i].width;
        if pw > mw {
            mw = pw;
        }
        i = i + 1;
    }
    proof {
        assert(ps.subrange(0, ps.len() as int) =~= ps);
    }
    let mut th: u64 = 0;
    let mut j: usize = 0;
    while j < pages.len()
        invariant
            ps == pages@,
            forall|q: int| 0 <= q < ps.len() ==> (#[trigger] ps[q]).wf(),
            0 <= j <= ps.len(),
            th as int == total_height(ps.subrange(0, j as int)),
            th <= u32::MAX,
        decreases ps.len() - j,
    {
        proof {
            lemma_total_prefix_snoc(ps, j as int);
        }
        let h = pages[j].height;
        let next: u64 = th + (h as u64);
        if next > u32::MAX as u64 {
            proof {
                lemma_total_height_split(ps, j as int + 1);
                lemma_total_height_nonneg(ps.subrange(j as int + 1, ps.len() as int));
            }
            return Err(KvError::ConversionError);
        }
        th = next;
        j = j + 1;
    }
    proof {
        assert(ps.subrange(0, ps.len() as int) =~= ps);
        lemma_max_width_bounds(ps);
        lemma_total_height_nonneg(ps);
    }
    proof {
        assert((mw as int) * (th as int) <= 0xffff_ffff * 0xffff_ffff && (mw as int) * (
        th as int) >= 0) by (nonlinear_arith)
            requires
                0 <= mw <= 0xffff_ffff,
                0 <= th <= 0xffff_ffff,
        ;
    }
    let prod: u128 = (mw as u128) * (th as u128);
    let need: u128 = 4u128 * prod;
    if need > usize::MAX as u128 {
        proof {
            assert(4 * ((mw as int) * (th as int)) == 4 * (mw as int) * (th as int)) by (
            nonlinear_arith);
        }
        return Err(KvError::ConversionError);
    }
    proof {
        assert(4 * ((mw as int) * (th as int)) == 4 * (mw as int) * (th as int)) by (
        nonlinear_arith);
    }
    let mut out: Vec<u8> = Vec::new();
    let mut k: usize = 0;
    while k < pages.len()
        invariant
            ps == pages@,
            forall|q: int| 0 <= q < ps.len() ==> (#[trigger] ps[q]).wf(),
            0 <= k <= ps.len(),
            mw as int == max_width(ps),
            th as int == total_height(ps),
            4 * (mw as int) * (th as int) <= usize::MAX,
            forall|q: int| 0 <= q < ps.len() ==> (#[trigger] ps[q]).width <= mw,
            out@ == stacked(ps.subrange(0, k as int), mw as int),
        decreases ps.len() - k,
    {
        proof {
            lemma_total_height_split(ps, k as int);
            lemma_total_height_split(ps.subrange(k as int, ps.len() as int), 1);
            assert(ps.subrange(k as int, ps.len() as int).subrange(0, 1) =~= seq![
                ps[k as int],
            ]);
            lemma_total_height_nonneg(ps.subrange(0, k as int));
            lemma_total_height_nonneg(
                ps.subrange(k as int, ps.len() as int).subrange(
                    1,
                    ps.len() as int - k as int,
                ),
            );
            assert(total_height(seq![ps[k as int]]) == ps[k as int].height + total_height(
                seq![ps[k as int]].drop_first(),
            ));
            assert(seq![ps[k as int]].drop_first() =~= Seq::<Bitmap>::empty());
            assert(ps[k as int].height <= th);
            lemma_mul_le_4(mw as int, ps[k as int].height as int, th as int);
        }
        let page_bytes = pad_page(&pages[k], mw);
        let mut pb = page_bytes;
        out.append(&mut pb);
        proof {
            lemma_stacked_snoc(ps, mw as int, k as int);
        }
        k = k + 1;
    }
    proof {
        assert(ps.subrange(0, ps.len() as int) =~= ps);
        lemma_stacked_len(ps, mw as int);
    }
    Ok(Bitmap { width: mw, height: th as u32, data: out })
}

/// Extending a prefix by one page takes the larger of the running maximum
/// and that page's width.
proof fn lemma_max_prefix_snoc(ps: Seq<Bitmap>, i: int)
    requires
        0 <= i < ps.len(),
    ensures
        max_width(ps.subrange(0, i + 1)) == (if ps[i].width as int >= max_width(
            ps.subrange(0, i),
        ) {
            ps[i].width as int
        } else {
            max_width(ps.subrange(0, i))
        }),
    decreases i,
{
    if i == 0 {
        assert(ps.subrange(0, 1).drop_first() =~= Seq::<Bitmap>::empty());
        assert(ps.subrange(0, 0) =~= Seq::<Bitmap>::empty());
    } else {
        lemma_max_prefix_snoc(ps.drop_first(), i - 1);
        assert(ps.drop_first().subrange(0, i) =~= ps.subrange(0, i + 1).drop_first());
        assert(ps.drop_first().subrange(0, i - 1) =~= ps.subrange(0, i).drop_first());
        assert(ps.drop_first()[i - 1] == ps[i]);
    }
}

/// Extending a prefix by one page adds that page's height.
proof fn lemma_total_prefix_snoc(ps: Seq<Bitmap>, i: int)
    requires
        0 <= i < ps.len(),
    ensures
        total_height(ps.subrange(0, i + 1)) == total_height(ps.subrange(0, i)) + ps[i].height,
    decreases i,
{
    if i == 0 {
        assert(ps.subrange(0, 1).drop_first() =~= Seq::<Bitmap>::empty());
        assert(ps.subrange(0, 0) =~= Seq::<Bitmap>::empty());
    } else {
        lemma_total_prefix_snoc(ps.drop_first(), i - 1);
        assert(ps.drop_first().subrange(0, i) =~= ps.subrange(0, i + 1).drop_first());
        assert(ps.drop_first().subrange(0, i - 1) =~= ps.subrange(0, i).drop_first());
        assert(ps.drop_first()[i - 1] == ps[i]);
    }
}


/// What `image::load_from_memory` makes of a byte sequence: `None` when no
/// decoder accepts it, otherwise the decoded width, height and RGBA bytes.
/// The result depends on the bytes alone.
pub uninterp spec fn decoded_image_of(bytes: Seq<u8>) -> Option<(u32, u32, Seq<u8>)>;

/// Relies on image::load_from_memory: whether bytes decode, and to which
/// RGBA pixels, is a function of the bytes alone; the decoded buffer holds
/// exactly four bytes per pixel.
#[verifier::external_body]
pub fn decode_image(data: &[u8]) -> (r: Result<Bitmap, KvError>)
    ensures
        match r {
            Ok(b) => decoded_image_of(data@) == Some((b.width, b.height, b.data@)) && b.wf(),
            Err(e) => decoded_image_of(data@) is None && e == KvError::DecodeError,
        },
{
    match image::load_from_memory(data) {
        Ok(img) => {
            let rgba = img.to_rgba8();
            let (w, h) = rgba.dimensions();
            Ok(Bitmap { width: w, height: h, data: rgba.into_raw() })
        },
        Err(_) => Err(KvError::DecodeError),
    }
}

/// What resampling a tightly packed RGBA buffer to `w` by `h` with the
/// triangle filter yields. The result depends on the arguments alone.
pub uninterp spec fn resized_of(data: Seq<u8>, sw: u32, sh: u32, w: u32, h: u32) -> Seq<u8>;

/// Relies on image::imageops::resize with the triangle filter: the output
/// holds exactly `w` by `h` RGBA pixels and depends only on the source
/// pixels and the dimensions.
#[verifier::external_body]
fn resize_bitmap(img: &Bitmap, w: u32, h: u32) -> (r: Bitmap)
    requires
        img.wf(),
    ensures
        r.width == w,
        r.height == h,
        r.wf(),
        r.data@ == resized_of(img.data@, img.width, img.height, w, h),
{
    let buf = image::RgbaImage::from_raw(img.width, img.height, img.data.clone())
        .expect("a well-formed bitmap fills its buffer exactly");
    let out = image::imageops::resize(&buf, w, h, image::imageops::FilterType::Triangle);
    Bitmap { width: w, height: h, data: out.into_raw() }
}

/// The post-processing every rendered image goes through: dimensions from
/// the resize policy and terminal size; resampling when they differ from
/// the source and neither is zero; then compositing onto the background
/// color when one is set.
pub open spec fn render_pipeline(ctx: RpixContext, sw: int, sh: int, d: Seq<u8>) -> (
    int,
    int,
    Seq<u8>,
) {
    let dims = spec_calculate_dimensions(
        sw,
        sh,
        ctx.resize_mode,
        ctx.term_width as int,
        ctx.term_height as int,
    );
    let w = dims.0;
    let h = dims.1;
    let scaled = if w != 0 && h != 0 && (w != sw || h != sh) {
        (w, h, resized_of(d, sw as u32, sh as u32, w as u32, h as u32))
    } else {
        (sw, sh, d)
    };
    match ctx.background {
        Some(c) => (scaled.0, scaled.1, composited(scaled.2, c)),
        None => scaled,
    }
}

/// Resize an image according to the request's policy and composite it onto
/// the background color, exactly as `render_pipeline` says. Never fails.
pub fn render_image(ctx: &RpixContext, img: Bitmap) -> (r: Bitmap)
    requires
        img.wf(),
    ensures
        r.wf(),
        (r.width as int, r.height as int, r.data@) == render_pipeline(
            *ctx,
            img.width as int,
            img.height as int,
            img.data@,
        ),
{
    let (w, h) = crate::dims::calculate_dimensions(
        (img.width, img.height),
        &ctx.resize_mode,
        (ctx.term_width, ctx.term_height),
    );
    let mut cur = img;
    if w != 0 && h != 0 && (w != cur.width || h != cur.height) {
        cur = resize_bitmap(&cur, w, h);
    }
    match &ctx.background {
        Some(c) => {
            let composited_img = add_background(&cur, c);
            composited_img
        },
        None => cur,
    }
}

/// The width a PDF page is rasterized at: an explicit manual width when one
/// is set, the terminal width under the width-driven policies, and
/// otherwise the terminal width when known, with 800 as the fallback.
pub fn pdf_target_width(ctx: &RpixContext) -> (w: u32)
    ensures
        w as int == spec_pdf_target_width(*ctx),
{
    match &ctx.resize_mode {
        ResizeMode::Manual { width: Some(w), height: _ } => *w,
        ResizeMode::FitWidth => ctx.term_width,
        ResizeMode::FitTerminal => ctx.term_width,
        _ => {
            if ctx.term_width > 0 {
                ctx.term_width
            } else {
                800
            }
        },
    }
}

/// See `pdf_target_width`.
pub open spec fn spec_pdf_target_width(ctx: RpixContext) -> int {
    match ctx.resize_mode {
        ResizeMode::Manual { width: Some(w), height: _ } => w as int,
        ResizeMode::FitWidth => ctx.term_width as int,
        ResizeMode::FitTerminal => ctx.term_width as int,
        _ => if ctx.term_width > 0 {
            ctx.term_width as int
        } else {
            800
        },
    }
}

/// Stack rasterized PDF pages into one image and run it through the render
/// pipeline: the success and failure conditions of `stack_vertical`, with
/// the stacked image post-processed exactly as `render_pipeline` says.
pub fn render_pdf_pages(ctx: &RpixContext, pages: Vec<Bitmap>) -> (r: Result<Bitmap, KvError>)
    requires
        forall|i: int| 0 <= i < pages@.len() ==> (#[trigger] pages@[i]).wf(),
    ensures
        match r {
            Ok(b) => {
                &&& pages@.len() > 0
                &&& b.wf()
                &&& (b.width as int, b.height as int, b.data@) == render_pipeline(
                    *ctx,
                    max_width(pages@),
                    total_height(pages@),
                    stacked(pages@, max_width(pages@)),
                )
            },
            Err(e) => (pages@.len() == 0 && e == KvError::ParseError) || (pages@.len() > 0 && e
                == KvError::ConversionError && (total_height(pages@) > u32::MAX || 4 * max_width(
                pages@,
            ) * total_height(pages@) > usize::MAX)),
        },
{
    let combined = match stack_vertical(&pages) {
        Ok(b) => b,
        Err(e) => {
            return Err(e);
        },
    };
    Ok(render_image(ctx, combined))
}

} // verus!
