//! Thumbnails of captured images.

use vstd::arithmetic::div_mod::*;
use vstd::prelude::*;

use crate::png_io::encode_png;
use crate::png_io::{png_file, png_holds};

verus! {

/// The longest edge of a thumbnail, in pixels.
pub const THUMB_MAX_SIZE: u32 = 96;

/// The longer of two edges.
pub open spec fn longest(w: u32, h: u32) -> u32 {
    if w >= h {
        w
    } else {
        h
    }
}

/// An edge of the thumbnail, where the longest edge of the picture is
/// `longest`: scaled down in proportion, at least one pixel.
pub open spec fn thumb_edge(edge: u32, longest: u32) -> u32 {
    if longest <= THUMB_MAX_SIZE {
        edge
    } else {
        let scaled = edge as int * THUMB_MAX_SIZE as int / longest as int;
        if scaled == 0 {
            1
        } else {
            scaled as u32
        }
    }
}

/// The size of the thumbnail of a picture.
pub open spec fn thumb_dims(w: u32, h: u32) -> (u32, u32) {
    (thumb_edge(w, longest(w, h)), thumb_edge(h, longest(w, h)))
}

/// The size of the thumbnail of a picture.
pub fn thumb_size(w: u32, h: u32) -> (r: (u32, u32))
    requires
        0 < w,
        0 < h,
    ensures
        r == thumb_dims(w, h),
{
    let most: u32 = if w >= h {
        w
    } else {
        h
    };
    (scale_edge(w, most), scale_edge(h, most))
}

fn scale_edge(edge: u32, most: u32) -> (r: u32)
    requires
        0 < edge <= most,
    ensures
        r == thumb_edge(edge, most),
{
    if most <= THUMB_MAX_SIZE {
        return edge;
    }
    proof {
        lemma_edge(edge, most);
    }
    let scaled: u64 = edge as u64 * THUMB_MAX_SIZE as u64 / most as u64;
    if scaled == 0 {
        1
    } else {
        scaled as u32
    }
}

/// A scaled edge is no longer than the limit.
proof fn lemma_edge(edge: u32, most: u32)
    requires
        0 < edge <= most,
    ensures
        most > THUMB_MAX_SIZE ==> 0 <= edge as int * THUMB_MAX_SIZE as int / most as int
            <= THUMB_MAX_SIZE,
        most > 0 ==> most as int * THUMB_MAX_SIZE as int / most as int == THUMB_MAX_SIZE,
{
    let n = edge as int * 96;
    lemma_div_is_ordered(n, most as int * 96, most as int);
    lemma_div_multiples_vanish(96, most as int);
    assert(most as int * 96 == 96 * most as int);
    lemma_div_pos_is_pos(n, most as int);
}

/// A thumbnail is never empty and never longer than the limit; the longest
/// edge of a larger picture comes out at the limit, and a smaller picture
/// keeps its size.
pub proof fn law_thumb_dims(w: u32, h: u32)
    requires
        0 < w,
        0 < h,
    ensures
        1 <= thumb_dims(w, h).0 <= THUMB_MAX_SIZE,
        1 <= thumb_dims(w, h).1 <= THUMB_MAX_SIZE,
        longest(w, h) <= THUMB_MAX_SIZE ==> thumb_dims(w, h) == (w, h),
        longest(w, h) > THUMB_MAX_SIZE ==> longest(thumb_dims(w, h).0, thumb_dims(w, h).1)
            == THUMB_MAX_SIZE,
{
    let most = longest(w, h);
    lemma_edge(w, most);
    lemma_edge(h, most);
    lemma_edge(most, most);
}

/// The picture scaled to `tw` by `th` pixels: each pixel is the one at the
/// same proportion of the way across and down.
pub open spec fn scaled(px: Seq<u8>, w: u32, h: u32, tw: u32, th: u32) -> Seq<u8> {
    Seq::new(
        (4 * (tw * th)) as nat,
        |i: int| px[4 * (source_y(i / 4, h, tw, th) * w + source_x(i / 4, w, tw)) + i % 4],
    )
}

/// The column that thumbnail pixel `p` is taken from.
pub open spec fn source_x(p: int, w: u32, tw: u32) -> int {
    (p % tw as int) * w / tw as int
}

/// The row that thumbnail pixel `p` is taken from.
pub open spec fn source_y(p: int, h: u32, tw: u32, th: u32) -> int {
    (p / tw as int) * h / th as int
}

/// A position below `n` of `m` lands below `len`.
proof fn lemma_source(pos: int, n: int, len: int)
    requires
        0 <= pos < n,
        0 < len,
    ensures
        0 <= pos * len / n < len,
{
    assert(0 <= pos * len && pos * len < n * len) by (nonlinear_arith)
        requires
            0 <= pos < n,
            0 < len,
    ;
    lemma_div_pos_is_pos(pos * len, n);
    lemma_fundamental_div_mod(pos * len, n);
    let q = pos * len / n;
    assert(q < len) by (nonlinear_arith)
        requires
            n * q + (pos * len) % n == pos * len,
            0 <= (pos * len) % n,
            pos * len < n * len,
            n > 0,
    ;
}

/// Scales a picture to `tw` by `th` pixels.
pub fn scale(px: &[u8], w: u32, h: u32, tw: u32, th: u32) -> (r: Vec<u8>)
    requires
        0 < w,
        0 < h,
        0 < tw,
        0 < th,
        px@.len() == 4 * (w * h),
    ensures
        r@ == scaled(px@, w, h, tw, th),
{
    let ghost all = scaled(px@, w, h, tw, th);
    let mut out: Vec<u8> = Vec::new();
    assert(0 <= tw * th <= 0xffff_ffff * 0xffff_ffff) by (nonlinear_arith)
        requires
            0 <= tw <= 0xffff_ffff,
            0 <= th <= 0xffff_ffff,
    ;
    assert(px.len() == 4 * (w * h));
    let n: u64 = tw as u64 * th as u64;
    let mut p: u64 = 0;
    assert(all.take(0) =~= out@);
    while p < n
        invariant
            p <= n,
            n == tw * th,
            0 < w,
            0 < h,
            0 < tw,
            0 < th,
            px.len() == 4 * (w * h),
            all == scaled(px@, w, h, tw, th),
            all.len() == 4 * n,
            out@ == all.take(4 * p),
        decreases n - p,
    {
        let y: u64 = p / tw as u64;
        let x: u64 = p % tw as u64;
        proof {
            lemma_fundamental_div_mod(p as int, tw as int);
            assert(y < th) by (nonlinear_arith)
                requires
                    tw * y + x == p,
                    p < tw * th,
                    x >= 0,
                    tw > 0,
            ;
            lemma_source(y as int, th as int, h as int);
            lemma_source(x as int, tw as int, w as int);
        }
        assert(y * h <= 0xffff_ffff * 0xffff_ffff) by (nonlinear_arith)
            requires
                y <= 0xffff_ffff,
                h <= 0xffff_ffff,
        ;
        assert(x * w <= 0xffff_ffff * 0xffff_ffff) by (nonlinear_arith)
            requires
                x <= 0xffff_ffff,
                w <= 0xffff_ffff,
        ;
        let sy: u64 = y * h as u64 / th as u64;
        let sx: u64 = x * w as u64 / tw as u64;
        assert(0 <= sy * w && sy * w + w <= w * h) by (nonlinear_arith)
            requires
                0 <= sy,
                sy + 1 <= h,
                w >= 0,
        ;
        let at: usize = 4 * ((sy * w as u64 + sx) as usize);
        out.push(px[at]);
        out.push(px[at + 1]);
        out.push(px[at + 2]);
        out.push(px[at + 3]);
        assert(out@ =~= all.take(4 * p + 4)) by {
            assert forall|i: int| 4 * p <= i < 4 * p + 4 implies #[trigger] all[i] == out@[i] by {
                assert(i / 4 == p);
            }
        }
        p += 1;
    }
    assert(all.take(all.len() as int) =~= all);
    out
}

/// The pixels of the thumbnail of a picture.
pub open spec fn thumb_pixels(rgba: Seq<u8>, w: u32, h: u32) -> Seq<u8> {
    scaled(rgba, w, h, thumb_dims(w, h).0, thumb_dims(w, h).1)
}

/// The PNG file of the thumbnail of a picture.
pub fn thumb_png(rgba: &[u8], w: u32, h: u32) -> (r: Option<Vec<u8>>)
    requires
        0 < w,
        0 < h,
        rgba@.len() == 4 * (w * h),
    ensures
        r is Some,
        r->0@ == png_file(thumb_pixels(rgba@, w, h), thumb_dims(w, h).0, thumb_dims(w, h).1),
        png_holds(
            r->0@,
            thumb_dims(w, h).0,
            thumb_dims(w, h).1,
            thumb_pixels(rgba@, w, h),
        ),
{
    let (tw, th) = thumb_size(w, h);
    proof {
        law_thumb_dims(w, h);
    }
    let px = scale(rgba, w, h, tw, th);
    assert(0 <= tw * th) by (nonlinear_arith);
    assert(4 * tw * th == 4 * (tw * th)) by (nonlinear_arith);
    encode_png(px.as_slice(), tw, th)
}

// ---------------------------------------------------------------------
// Thumbnails by their proportions.
// ---------------------------------------------------------------------
/// A picture that fits into 96 by 96 pixels keeps its size. The longer edge of
/// any other becomes 96 pixels, and the shorter one keeps the proportion,
/// rounded down to whole pixels but not to none. It makes no difference which
/// of the edges is the width.
pub proof fn law_thumb_proportion(w: u32, h: u32)
    requires
        0 < h <= w,
    ensures
        w <= 96 ==> thumb_dims(w, h) == (w, h),
        w > 96 ==> ({
            let (tw, th) = thumb_dims(w, h);
            &&& tw == 96
            &&& th >= 1
            &&& 96 * h < (th + 1) * w
            &&& th > 1 ==> th * w <= 96 * h
        }),
        thumb_dims(h, w) == (thumb_dims(w, h).1, thumb_dims(w, h).0),
{
    lemma_edge(w, w);
    lemma_edge(h, w);
    if w > 96 {
        let n = h as int * 96;
        let q = n / w as int;
        lemma_fundamental_div_mod(n, w as int);
        assert(w * q == q * w) by (nonlinear_arith);
        assert((q + 1) * w == q * w + w) by (nonlinear_arith);
        assert(n == 96 * h);
        assert(q <= 96);
        if q == 0 {
            assert((1 + 1) * w == 2 * w);
        }
    }
}

/// Each pixel of a scaled picture is the one of the picture that lies the same
/// part of the way across and down, all four channels of it.
pub proof fn law_scaled_pixel(
    px: Seq<u8>,
    w: u32,
    h: u32,
    tw: u32,
    th: u32,
    x: int,
    y: int,
    sx: int,
    sy: int,
    c: int,
)
    requires
        0 <= x < tw,
        0 <= y < th,
        0 <= c < 4,
        sx * tw <= x * w < (sx + 1) * tw,
        sy * th <= y * h < (sy + 1) * th,
    ensures
        scaled(px, w, h, tw, th).len() == 4 * (tw * th),
        0 <= 4 * (y * tw + x) + c < scaled(px, w, h, tw, th).len(),
        scaled(px, w, h, tw, th)[4 * (y * tw + x) + c] == px[4 * (sy * w + sx) + c],
{
    let n = y * tw + x;
    assert(0 <= y * tw && y * tw + tw <= tw * th) by (nonlinear_arith)
        requires
            0 <= y,
            y + 1 <= th,
            tw > 0,
    ;
    lemma_fundamental_div_mod_converse(n, tw as int, y, x);
    assert((4 * n + c) / 4 == n && (4 * n + c) % 4 == c);
    assert((sx + 1) * tw == sx * tw + tw) by (nonlinear_arith);
    assert((sy + 1) * th == sy * th + th) by (nonlinear_arith);
    lemma_fundamental_div_mod_converse(x * w, tw as int, sx, x * w - sx * tw);
    lemma_fundamental_div_mod_converse(y * h, th as int, sy, y * h - sy * th);
}

/// The thumbnail is the picture scaled to the thumbnail's size.
pub proof fn law_thumb_pixel(
    px: Seq<u8>,
    w: u32,
    h: u32,
    x: int,
    y: int,
    sx: int,
    sy: int,
    c: int,
)
    requires
        0 < w,
        0 < h,
        0 <= x < thumb_dims(w, h).0,
        0 <= y < thumb_dims(w, h).1,
        0 <= c < 4,
        sx * thumb_dims(w, h).0 <= x * w < (sx + 1) * thumb_dims(w, h).0,
        sy * thumb_dims(w, h).1 <= y * h < (sy + 1) * thumb_dims(w, h).1,
    ensures
        thumb_pixels(px, w, h).len() == 4 * (thumb_dims(w, h).0 * thumb_dims(w, h).1),
        thumb_pixels(px, w, h)[4 * (y * thumb_dims(w, h).0 + x) + c] == px[4 * (sy * w + sx) + c],
{
    let (tw, th) = thumb_dims(w, h);
    law_scaled_pixel(px, w, h, tw, th, x, y, sx, sy, c);
}

/// The thumbnail of a picture that fits into 96 by 96 pixels is the picture.
pub proof fn law_small_picture_is_its_thumb(px: Seq<u8>, w: u32, h: u32)
    requires
        0 < w <= 96,
        0 < h <= 96,
        px.len() == 4 * (w * h),
    ensures
        thumb_pixels(px, w, h) == px,
{
    let t = thumb_pixels(px, w, h);
    assert forall|i: int| 0 <= i < px.len() implies #[trigger] t[i] == px[i] by {
        let n = i / 4;
        let y = n / w as int;
        let x = n % w as int;
        lemma_fundamental_div_mod(n, w as int);
        assert(y * w == w * y) by (nonlinear_arith);
        assert(0 <= y) by (nonlinear_arith)
            requires
                n >= 0,
                w > 0,
                y == n / w as int,
        ;
        assert(y < h) by (nonlinear_arith)
            requires
                w * y + x == n,
                n < w * h,
                x >= 0,
                w > 0,
        ;
        assert((x + 1) * w == x * w + w) by (nonlinear_arith);
        assert((y + 1) * h == y * h + h) by (nonlinear_arith);
        law_scaled_pixel(px, w, h, w, h, x, y, x, y, i % 4);
    }
    assert(t =~= px);
}

} // verus!
