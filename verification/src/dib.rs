//! Device-independent bitmaps: the image format of the clipboard.
//!
//! A bitmap is a header, for some layouts three channel masks, and the rows,
//! bottom-up unless the height is negative.

use vstd::arithmetic::div_mod::*;
use vstd::prelude::*;

use crate::bytes::{push_le16, push_le32, read_i32, read_u16, read_u32};
use crate::bytes::{law_le32_round_trip, le16, le32, le_u16, le_u32, signed};
use crate::png_io::{decode_png, encode_png, looks_like_png, Frame, PixelKind};
use crate::png_io::{is_png, png_decodable, png_file, png_frame, png_holds, PNG_ROW_LIMIT};

verus! {

// ---------------------------------------------------------------------
// The header.
// ---------------------------------------------------------------------
/// The fields of a bitmap header that say where the pixels are.
#[derive(Clone, Copy, Debug, PartialEq, Eq, Structural)]
pub struct Header {
    /// The length of the header in bytes.
    pub size: u32,
    pub width: i32,
    /// Positive for a bitmap stored bottom-up, negative for top-down.
    pub height: i32,
    pub planes: u16,
    pub bits: u16,
    pub compression: u32,
}

/// The header at the start of `b`.
pub open spec fn header_of(b: Seq<u8>) -> Header {
    Header {
        size: le_u32(b, 0),
        width: signed(le_u32(b, 4)),
        height: signed(le_u32(b, 8)),
        planes: le_u16(b, 12),
        bits: le_u16(b, 14),
        compression: le_u32(b, 16),
    }
}

/// Reads the header at the start of `b`.
pub fn read_header(b: &[u8]) -> (r: Header)
    requires
        b@.len() >= 20,
    ensures
        r == header_of(b@),
{
    Header {
        size: read_u32(b, 0),
        width: read_i32(b, 4),
        height: read_i32(b, 8),
        planes: read_u16(b, 12),
        bits: read_u16(b, 14),
        compression: read_u32(b, 16),
    }
}

/// The number of rows.
pub open spec fn rows_of(h: Header) -> int {
    if h.height < 0 {
        -h.height
    } else {
        h.height as int
    }
}

/// The number of rows.
fn row_count(h: &Header) -> (r: u32)
    ensures
        r == rows_of(*h),
{
    if h.height < 0 {
        (-(h.height as i64)) as u32
    } else {
        h.height as u32
    }
}

/// The bytes from one row to the next: rows of 24-bit pixels are padded to a
/// multiple of four.
pub open spec fn stride_of(h: Header) -> int {
    if h.bits == 32 {
        h.width * 4
    } else {
        (h.width * 3 + 3) / 4 * 4
    }
}

fn stride(h: &Header) -> (r: u64)
    requires
        0 < h.width,
    ensures
        r == stride_of(*h),
{
    if h.bits == 32 {
        h.width as u64 * 4
    } else {
        (h.width as u64 * 3 + 3) / 4 * 4
    }
}

/// The stored row that holds row `y` from the top.
pub open spec fn stored_row(h: Header, y: int) -> int {
    if h.height > 0 {
        rows_of(h) - 1 - y
    } else {
        y
    }
}

/// The shape of a bitmap with plain colour channels.
pub open spec fn plain_shape(h: Header) -> bool {
    &&& h.compression == 0
    &&& h.planes == 1
    &&& h.bits == 24 || h.bits == 32
    &&& h.size >= 40
    &&& h.width > 0
    &&& h.height != 0
}

/// Whether `b` is a bitmap of plain 24- or 32-bit pixels that holds all of its
/// rows.
pub open spec fn is_plain_dib(b: Seq<u8>) -> bool {
    &&& b.len() >= 40
    &&& plain_shape(header_of(b))
    &&& b.len() >= header_of(b).size + stride_of(header_of(b)) * rows_of(header_of(b))
}

// ---------------------------------------------------------------------
// Pixels of plain bitmaps.
// ---------------------------------------------------------------------
/// Where the pixel in column `x` of row `y` from the top starts.
pub open spec fn pixel_offset(h: Header, x: int, y: int) -> int {
    h.size + stored_row(h, y) * stride_of(h) + x * (h.bits as int / 8)
}

/// The pixels of a plain bitmap as RGBA, row by row from the top, all opaque.
pub open spec fn dib_rgba(b: Seq<u8>) -> Seq<u8> {
    let h = header_of(b);
    Seq::new(
        (4 * (h.width * rows_of(h))) as nat,
        |i: int|
            if i % 4 == 3 {
                0xff
            } else {
                b[pixel_offset(h, i / 4 % h.width as int, i / 4 / h.width as int) + 2 - i % 4]
            },
    )
}

/// One row of pixels as RGBA, from a row that is stored as BGR with `step`
/// bytes to a pixel.
pub open spec fn row_rgba(b: Seq<u8>, at: int, width: int, step: int) -> Seq<u8> {
    Seq::new(
        (4 * width) as nat,
        |i: int|
            if i % 4 == 3 {
                0xff
            } else {
                b[at + (i / 4) * step + 2 - i % 4]
            },
    )
}

/// Appends one row of pixels as RGBA.
fn push_row_rgba(out: &mut Vec<u8>, b: &[u8], at: usize, width: usize, step: usize)
    requires
        step == 3 || step == 4,
        at + width * step <= b@.len(),
    ensures
        final(out)@ == old(out)@ + row_rgba(b@, at as int, width as int, step as int),
{
    let mut x: usize = 0;
    let mut from: usize = at;
    let ghost row = row_rgba(b@, at as int, width as int, step as int);
    assert(out@ =~= old(out)@ + row.take(0));
    while x < width
        invariant
            x <= width,
            step == 3 || step == 4,
            from == at + x * step,
            at + width * step <= b.len(),
            row == row_rgba(b@, at as int, width as int, step as int),
            out@ == old(out)@ + row.take(4 * x),
        decreases width - x,
    {
        assert(x * step + step <= width * step) by (nonlinear_arith)
            requires
                x + 1 <= width,
                step >= 0,
        ;
        assert((x + 1) * step == x * step + step) by (nonlinear_arith);
        out.push(b[from + 2]);
        out.push(b[from + 1]);
        out.push(b[from]);
        out.push(0xff);
        assert forall|i: int| 4 * x <= i < 4 * x + 4 implies #[trigger] row[i] == out@[old(
            out,
        )@.len() + i] by {
            assert(i / 4 == x);
        }
        assert(out@ =~= old(out)@ + row.take(4 * x + 4));
        x += 1;
        from += step;
    }
    assert(row.take(4 * width as int) =~= row);
}

/// Row `y` of the picture, as a part of all the pixels.
proof fn lemma_row_of_dib(b: Seq<u8>, y: int)
    requires
        is_plain_dib(b),
        0 <= y < rows_of(header_of(b)),
    ensures
        ({
            let h = header_of(b);
            let w = h.width as int;
            let row = row_rgba(
                b,
                h.size + stored_row(h, y) * stride_of(h),
                w,
                h.bits as int / 8,
            );
            &&& 0 <= 4 * (w * y)
            &&& 4 * (w * (y + 1)) == 4 * (w * y) + 4 * w
            &&& 4 * (w * (y + 1)) <= dib_rgba(b).len()
            &&& dib_rgba(b).subrange(4 * (w * y), 4 * (w * (y + 1))) == row
        }),
{
    let h = header_of(b);
    let w = h.width as int;
    let row = row_rgba(b, h.size + stored_row(h, y) * stride_of(h), w, h.bits as int / 8);
    let all = dib_rgba(b);
    assert(w * (y + 1) == w * y + w) by (nonlinear_arith);
    assert(0 <= w * y) by (nonlinear_arith)
        requires
            w > 0,
            y >= 0,
    ;
    assert(w * (y + 1) <= w * rows_of(h)) by (nonlinear_arith)
        requires
            w > 0,
            y + 1 <= rows_of(h),
    ;
    let part = all.subrange(4 * (w * y), 4 * (w * (y + 1)));
    assert forall|j: int| 0 <= j < 4 * w implies #[trigger] part[j] == row[j] by {
        let i = 4 * (w * y) + j;
        assert(part[j] == all[i]);
        assert(i / 4 == w * y + j / 4);
        assert(i % 4 == j % 4);
        assert(w * y == y * w) by (nonlinear_arith);
        lemma_fundamental_div_mod_converse(i / 4, w, y, j / 4);
    }
    assert(part =~= row);
}

/// The pixels of a plain bitmap as RGBA, top-down and opaque, with the width
/// and the height; `None` for any other bitmap.
pub fn dib_to_rgba(dib: &[u8]) -> (r: Option<(Vec<u8>, u32, u32)>)
    ensures
        r is Some == is_plain_dib(dib@),
        r matches Some((px, w, h)) ==> {
            &&& px@ == dib_rgba(dib@)
            &&& w == header_of(dib@).width
            &&& h == rows_of(header_of(dib@))
        },
{
    if dib.len() < 40 {
        return None;
    }
    let h = read_header(dib);
    if h.compression != 0 || h.planes != 1 || (h.bits != 24 && h.bits != 32) || h.size < 40
        || h.width <= 0 || h.height == 0 {
        return None;
    }
    let rows: u32 = row_count(&h);
    let step: u64 = stride(&h);
    assert(step * rows <= 0x2_0000_0000 * 0x8000_0000) by (nonlinear_arith)
        requires
            step <= 0x2_0000_0000,
            rows <= 0x8000_0000,
    ;
    if (dib.len() as u128) < h.size as u128 + step as u128 * rows as u128 {
        return None;
    }
    let w: usize = h.width as usize;
    let bytes: usize = if h.bits == 32 {
        4
    } else {
        3
    };
    let mut out: Vec<u8> = Vec::new();
    let mut y: u32 = 0;
    proof {
        assert(w as int * 0 == 0);
        assert(dib_rgba(dib@).take(0) =~= out@);
    }
    while y < rows
        invariant
            y <= rows,
            rows == rows_of(h),
            h == header_of(dib@),
            is_plain_dib(dib@),
            h.size + stride_of(h) * rows_of(h) <= dib.len(),
            w == h.width,
            bytes == h.bits as int / 8,
            step == stride_of(h),
            0 <= 4 * (w as int * y as int) <= dib_rgba(dib@).len(),
            out@ == dib_rgba(dib@).take(4 * (w as int * y as int)),
        decreases rows - y,
    {
        let src: u32 = if h.height > 0 {
            rows - 1 - y
        } else {
            y
        };
        assert(0 <= src * step && src * step + step <= step * rows) by (nonlinear_arith)
            requires
                0 <= src,
                src + 1 <= rows,
                step >= 0,
        ;
        let at: usize = (h.size as u64 + src as u64 * step) as usize;
        assert(w * bytes <= step);
        proof {
            lemma_row_of_dib(dib@, y as int);
        }
        let ghost before = out@;
        push_row_rgba(&mut out, dib, at, w, bytes);
        proof {
            let all = dib_rgba(dib@);
            let lo = 4 * (w as int * y as int);
            let hi = 4 * (w as int * (y + 1));
            assert(at == h.size + stored_row(h, y as int) * stride_of(h));
            assert(all.take(lo) + all.subrange(lo, hi) =~= all.take(hi));
        }
        y += 1;
    }
    proof {
        let all = dib_rgba(dib@);
        assert(all.take(all.len() as int) =~= all);
    }
    Some((out, h.width as u32, rows))
}

// ---------------------------------------------------------------------
// RGBA and BGRA.
// ---------------------------------------------------------------------
/// Four-byte pixels with the first and the third channel swapped: RGBA to
/// BGRA, or back.
pub open spec fn swapped(px: Seq<u8>) -> Seq<u8> {
    Seq::new(
        px.len(),
        |i: int|
            if i % 4 == 0 {
                px[i + 2]
            } else if i % 4 == 2 {
                px[i - 2]
            } else {
                px[i]
            },
    )
}

/// Appends four-byte pixels with the first and the third channel swapped.
fn push_swapped(out: &mut Vec<u8>, px: &[u8])
    requires
        px@.len() % 4 == 0,
    ensures
        final(out)@ == old(out)@ + swapped(px@),
{
    let mut i: usize = 0;
    assert(out@ =~= old(out)@ + swapped(px@).take(0));
    while i < px.len()
        invariant
            i <= px.len(),
            i % 4 == 0,
            px@.len() % 4 == 0,
            out@ == old(out)@ + swapped(px@).take(i as int),
        decreases px@.len() - i,
    {
        assert(i + 4 <= px.len());
        out.push(px[i + 2]);
        out.push(px[i + 1]);
        out.push(px[i]);
        out.push(px[i + 3]);
        assert(out@ =~= old(out)@ + swapped(px@).take(i + 4));
        i += 4;
    }
    assert(swapped(px@).take(px@.len() as int) =~= swapped(px@));
}

/// Four-byte pixels with the first and the third channel swapped.
pub fn swap_channels(px: &[u8]) -> (r: Vec<u8>)
    requires
        px@.len() % 4 == 0,
    ensures
        r@ == swapped(px@),
{
    let mut out: Vec<u8> = Vec::new();
    push_swapped(&mut out, px);
    assert(out@ =~= swapped(px@));
    out
}

/// Swapping twice changes nothing.
pub proof fn law_swap_undoes_itself(px: Seq<u8>)
    requires
        px.len() % 4 == 0,
    ensures
        swapped(swapped(px)) == px,
{
    assert(swapped(swapped(px)) =~= px);
}

/// The channels of a pixel of the given kind.
pub open spec fn channels(kind: PixelKind) -> int {
    match kind {
        PixelKind::Gray => 1,
        PixelKind::GrayAlpha => 2,
        PixelKind::Rgb => 3,
        PixelKind::Rgba => 4,
        PixelKind::Indexed => 1,
    }
}

/// Channel `c` of pixel `p`, where the pixels are of the given kind: red,
/// green, blue, alpha. What has no alpha is opaque.
pub open spec fn frame_sample(kind: PixelKind, pixels: Seq<u8>, p: int, c: int) -> u8 {
    match kind {
        PixelKind::Rgba => pixels[4 * p + c],
        PixelKind::Rgb => if c == 3 {
            0xff
        } else {
            pixels[3 * p + c]
        },
        PixelKind::GrayAlpha => if c == 3 {
            pixels[2 * p + 1]
        } else {
            pixels[2 * p]
        },
        _ => if c == 3 {
            0xff
        } else {
            pixels[p]
        },
    }
}

/// The pixels of a decoded image as RGBA.
pub open spec fn frame_rgba(kind: PixelKind, pixels: Seq<u8>) -> Seq<u8> {
    Seq::new(
        (4 * (pixels.len() as int / channels(kind))) as nat,
        |i: int| frame_sample(kind, pixels, i / 4, i % 4),
    )
}

/// The pixels of a decoded image as RGBA.
fn frame_to_rgba(f: &Frame) -> (r: Vec<u8>)
    ensures
        r@ == frame_rgba(f.kind, f.pixels@),
        r@.len() % 4 == 0,
{
    let ghost all = frame_rgba(f.kind, f.pixels@);
    let px: &Vec<u8> = &f.pixels;
    let n: usize = match f.kind {
        PixelKind::Rgba => px.len() / 4,
        PixelKind::Rgb => px.len() / 3,
        PixelKind::GrayAlpha => px.len() / 2,
        _ => px.len(),
    };
    let mut out: Vec<u8> = Vec::new();
    let mut p: usize = 0;
    assert(all.take(0) =~= out@);
    while p < n
        invariant
            p <= n,
            n == px@.len() as int / channels(f.kind),
            n * channels(f.kind) <= px.len(),
            px == &f.pixels,
            all == frame_rgba(f.kind, f.pixels@),
            out@ == all.take(4 * p),
        decreases n - p,
    {
        let (r, g, b, a): (u8, u8, u8, u8) = match f.kind {
            PixelKind::Rgba => (px[4 * p], px[4 * p + 1], px[4 * p + 2], px[4 * p + 3]),
            PixelKind::Rgb => (px[3 * p], px[3 * p + 1], px[3 * p + 2], 0xff),
            PixelKind::GrayAlpha => (px[2 * p], px[2 * p], px[2 * p], px[2 * p + 1]),
            _ => (px[p], px[p], px[p], 0xff),
        };
        out.push(r);
        out.push(g);
        out.push(b);
        out.push(a);
        assert(out@ =~= all.take(4 * p + 4)) by {
            assert forall|i: int| 4 * p <= i < 4 * p + 4 implies #[trigger] all[i] == out@[i] by {
                assert(i / 4 == p);
            }
        }
        p += 1;
    }
    assert(all.take(all.len() as int) =~= all);
    out
}

// ---------------------------------------------------------------------
// Writing bitmaps.
// ---------------------------------------------------------------------
/// The 40-byte header of a top-down 32-bit bitmap.
#[verifier::opaque]
pub open spec fn dib_head(width: u32, height: u32) -> Seq<u8> {
    le32(40) + le32(width) + le32(((0x1_0000_0000 - height) % 0x1_0000_0000) as u32) + le16(1)
        + le16(32) + le32(0) + le32((4 * (width * height) % 0x1_0000_0000) as u32) + le32(0)
        + le32(0) + le32(0) + le32(0)
}

/// The top-down 32-bit bitmap with the given RGBA pixels.
pub open spec fn dib_of_rgba(width: u32, height: u32, rgba: Seq<u8>) -> Seq<u8> {
    dib_head(width, height) + swapped(rgba)
}

/// The bitmap of a decoded image; `None` for an empty one, and for channels
/// that are not one byte wide or stand for palette entries.
pub open spec fn dib_of_frame(f: (u32, u32, PixelKind, bool, Seq<u8>)) -> Option<Seq<u8>> {
    if f.0 == 0 || f.1 == 0 || !f.3 || f.2 == PixelKind::Indexed {
        None
    } else {
        Some(dib_of_rgba(f.0, f.1, frame_rgba(f.2, f.4)))
    }
}

/// The top-down 32-bit bitmap with the given RGBA pixels.
fn write_dib(width: u32, height: u32, rgba: &[u8]) -> (r: Vec<u8>)
    requires
        rgba@.len() % 4 == 0,
    ensures
        r@ == dib_of_rgba(width, height, rgba@),
{
    let mut out: Vec<u8> = Vec::new();
    push_le32(&mut out, 40);
    push_le32(&mut out, width);
    let negated: u32 = ((0x1_0000_0000 - height as u64) % 0x1_0000_0000) as u32;
    push_le32(&mut out, negated);
    push_le16(&mut out, 1);
    push_le16(&mut out, 32);
    push_le32(&mut out, 0);
    assert(width * height <= 0xffff_ffff * 0xffff_ffff) by (nonlinear_arith)
        requires
            width <= 0xffff_ffff,
            height <= 0xffff_ffff,
    ;
    let size: u32 = (4 * (width as u128 * height as u128) % 0x1_0000_0000) as u32;
    push_le32(&mut out, size);
    push_le32(&mut out, 0);
    push_le32(&mut out, 0);
    push_le32(&mut out, 0);
    push_le32(&mut out, 0);
    assert(out@ =~= dib_head(width, height)) by {
        reveal(dib_head);
    }
    push_swapped(&mut out, rgba);
    out
}

/// The bitmap of a decoded image.
pub fn frame_to_dib(f: &Frame) -> (r: Option<Vec<u8>>)
    ensures
        r is Some == dib_of_frame(f@) is Some,
        r matches Some(d) ==> dib_of_frame(f@) == Some(d@),
{
    if f.width == 0 || f.height == 0 || !f.eight_bit || f.kind == PixelKind::Indexed {
        return None;
    }
    let rgba = frame_to_rgba(f);
    Some(write_dib(f.width, f.height, rgba.as_slice()))
}

/// The bitmap of a PNG file, as far as the file can be decoded.
pub open spec fn dib_of_png(png: Seq<u8>) -> Option<Seq<u8>> {
    match png_frame(png) {
        Some(f) => dib_of_frame(f),
        None => None,
    }
}

/// Turns a PNG file into the bitmap that is put on the clipboard.
pub fn png_to_dib(png_bytes: &[u8]) -> (r: Option<Vec<u8>>)
    requires
        png_decodable(png_bytes@),
    ensures
        r is Some == dib_of_png(png_bytes@) is Some,
        r matches Some(d) ==> dib_of_png(png_bytes@) == Some(d@),
{
    match decode_png(png_bytes) {
        Some(f) => frame_to_dib(&f),
        None => None,
    }
}

/// The PNG file of the pixels of a plain bitmap.
pub open spec fn png_of_dib(dib: Seq<u8>) -> Seq<u8> {
    png_file(dib_rgba(dib), header_of(dib).width as u32, rows_of(header_of(dib)) as u32)
}

/// Turns a plain bitmap into a PNG file of its pixels; `None` for any other
/// bitmap.
pub fn dib_to_png(dib: &[u8]) -> (r: Option<Vec<u8>>)
    ensures
        r is Some == is_plain_dib(dib@),
        r matches Some(file) ==> file@ == png_of_dib(dib@),
        r matches Some(file) ==> png_holds(
            file@,
            header_of(dib@).width as u32,
            rows_of(header_of(dib@)) as u32,
            dib_rgba(dib@),
        ),
{
    match dib_to_rgba(dib) {
        None => None,
        Some((rgba, w, h)) => {
            assert(4 * w * h == 4 * (w * h)) by (nonlinear_arith);
            encode_png(rgba.as_slice(), w, h)
        },
    }
}

// ---------------------------------------------------------------------
// Laws of the two directions.
// ---------------------------------------------------------------------
/// Where the first parts of a joined sequence stand.
proof fn lemma_parts(
    a: Seq<u8>,
    b: Seq<u8>,
    c: Seq<u8>,
    d: Seq<u8>,
    e: Seq<u8>,
    f: Seq<u8>,
    rest: Seq<u8>,
)
    requires
        a.len() == 4,
        b.len() == 4,
        c.len() == 4,
        d.len() == 2,
        e.len() == 2,
        f.len() == 4,
    ensures
        ({
            let s = a + b + c + d + e + f + rest;
            &&& s.subrange(0, 4) == a
            &&& s.subrange(4, 8) == b
            &&& s.subrange(8, 12) == c
            &&& s.subrange(12, 14) == d
            &&& s.subrange(14, 16) == e
            &&& s.subrange(16, 20) == f
        }),
{
    let s = a + b + c + d + e + f + rest;
    assert(s.subrange(0, 4) =~= a);
    assert(s.subrange(4, 8) =~= b);
    assert(s.subrange(8, 12) =~= c);
    assert(s.subrange(12, 14) =~= d);
    assert(s.subrange(14, 16) =~= e);
    assert(s.subrange(16, 20) =~= f);
}

/// The parts of a written header.
proof fn lemma_head_parts(width: u32, height: u32)
    ensures
        ({
            let head = dib_head(width, height);
            &&& head.len() == 40
            &&& head.subrange(0, 4) == le32(40)
            &&& head.subrange(4, 8) == le32(width)
            &&& head.subrange(8, 12) == le32(((0x1_0000_0000 - height) % 0x1_0000_0000) as u32)
            &&& head.subrange(12, 14) == le16(1)
            &&& head.subrange(14, 16) == le16(32)
            &&& head.subrange(16, 20) == le32(0)
        }),
{
    let negated = ((0x1_0000_0000 - height) % 0x1_0000_0000) as u32;
    let size = (4 * (width * height) % 0x1_0000_0000) as u32;
    let rest = le32(size) + le32(0) + le32(0) + le32(0) + le32(0);
    let front = le32(40) + le32(width) + le32(negated) + le16(1) + le16(32) + le32(0);
    assert(dib_head(width, height) =~= front + rest) by {
        reveal(dib_head);
    }
    lemma_parts(le32(40), le32(width), le32(negated), le16(1), le16(32), le32(0), rest);
}

/// A number in a header, read from the bitmap that it heads.
proof fn lemma_field32(head: Seq<u8>, body: Seq<u8>, i: int, n: u32)
    requires
        0 <= i,
        i + 4 <= head.len(),
        head.subrange(i, i + 4) == le32(n),
    ensures
        le_u32(head + body, i) == n,
{
    assert((head + body).subrange(i, i + 4) =~= head.subrange(i, i + 4));
    law_le32_round_trip(head + body, i, n);
}

/// A short number in a header, read from the bitmap that it heads.
proof fn lemma_field16(head: Seq<u8>, body: Seq<u8>, i: int, n: u16)
    requires
        0 <= i,
        i + 2 <= head.len(),
        head.subrange(i, i + 2) == le16(n),
    ensures
        le_u16(head + body, i) == n,
{
    let part = head.subrange(i, i + 2);
    assert((head + body)[i] == part[0] && (head + body)[i + 1] == part[1]);
}

/// The fields of a written header.
proof fn lemma_head_fields(width: u32, height: u32, body: Seq<u8>)
    requires
        0 < width <= i32::MAX,
        0 < height <= i32::MAX,
    ensures
        dib_head(width, height).len() == 40,
        header_of(dib_head(width, height) + body) == (Header {
            size: 40,
            width: width as i32,
            height: (-height) as i32,
            planes: 1,
            bits: 32,
            compression: 0,
        }),
{
    let head = dib_head(width, height);
    let negated = ((0x1_0000_0000 - height) % 0x1_0000_0000) as u32;
    lemma_head_parts(width, height);
    lemma_field32(head, body, 0, 40);
    lemma_field32(head, body, 4, width);
    lemma_field32(head, body, 8, negated);
    lemma_field16(head, body, 12, 1);
    lemma_field16(head, body, 14, 32);
    lemma_field32(head, body, 16, 0);
}

/// A bitmap that is written from opaque pixels reads back as those pixels.
pub proof fn law_written_dib_reads_back(width: u32, height: u32, rgba: Seq<u8>)
    requires
        0 < width <= i32::MAX,
        0 < height <= i32::MAX,
        rgba.len() == 4 * (width * height),
        forall|i: int| 0 <= i < rgba.len() && i % 4 == 3 ==> #[trigger] rgba[i] == 0xff,
    ensures
        is_plain_dib(dib_of_rgba(width, height, rgba)),
        dib_rgba(dib_of_rgba(width, height, rgba)) == rgba,
{
    let d = dib_of_rgba(width, height, rgba);
    lemma_head_fields(width, height, swapped(rgba));
    let h = header_of(d);
    assert(rows_of(h) == height);
    assert((width * 4) * height == 4 * (width * height)) by (nonlinear_arith);
    assert forall|i: int| 0 <= i < rgba.len() implies #[trigger] dib_rgba(d)[i] == rgba[i] by {
        if i % 4 != 3 {
            lemma_written_pixel(h, i / 4);
            assert(dib_rgba(d)[i] == d[40 + 4 * (i / 4) + 2 - i % 4]);
            lemma_swapped_byte(dib_head(width, height), rgba, i);
        }
    }
    assert(dib_rgba(d) =~= rgba);
}

/// Where pixel `p` of a top-down 32-bit bitmap stands.
proof fn lemma_written_pixel(h: Header, p: int)
    requires
        h.size == 40,
        h.bits == 32,
        h.width > 0,
        h.height < 0,
        0 <= p,
    ensures
        pixel_offset(h, p % h.width as int, p / h.width as int) == 40 + 4 * p,
{
    let w = h.width as int;
    lemma_fundamental_div_mod(p, w);
    let y = p / w;
    let x = p % w;
    assert(w * y + x == p);
    assert(y * (w * 4) == 4 * (w * y)) by (nonlinear_arith);
    assert(h.bits as int / 8 == 4);
    assert(stored_row(h, y) == y);
    assert(pixel_offset(h, x, y) == 40 + y * (w * 4) + x * 4);
}

/// The byte of a written bitmap that holds channel `i % 4` of pixel `i / 4`.
proof fn lemma_swapped_byte(head: Seq<u8>, rgba: Seq<u8>, i: int)
    requires
        head.len() == 40,
        rgba.len() % 4 == 0,
        0 <= i < rgba.len(),
        i % 4 != 3,
    ensures
        (head + swapped(rgba))[40 + 4 * (i / 4) + 2 - i % 4] == rgba[i],
{
    let k = 4 * (i / 4) + 2 - i % 4;
    assert((head + swapped(rgba))[40 + k] == swapped(rgba)[k]);
}

/// The pixels of an RGBA image are its RGBA pixels.
proof fn lemma_rgba_frame(rgba: Seq<u8>)
    requires
        rgba.len() % 4 == 0,
    ensures
        frame_rgba(PixelKind::Rgba, rgba) == rgba,
{
    assert forall|i: int| 0 <= i < rgba.len() implies #[trigger] frame_rgba(
        PixelKind::Rgba,
        rgba,
    )[i] == rgba[i] by {
        assert(4 * (i / 4) + i % 4 == i);
    }
    assert(frame_rgba(PixelKind::Rgba, rgba) =~= rgba);
}

/// The bitmap that an RGBA file becomes.
proof fn lemma_png_to_dib(file: Seq<u8>, w: u32, h: u32, rgba: Seq<u8>)
    requires
        0 < w,
        0 < h,
        rgba.len() % 4 == 0,
        png_frame(file) == Some((w, h, PixelKind::Rgba, true, rgba)),
    ensures
        dib_of_png(file) == Some(dib_of_rgba(w, h, rgba)),
{
    lemma_rgba_frame(rgba);
}

/// The pixels of a plain bitmap are opaque.
proof fn lemma_dib_opaque(dib: Seq<u8>)
    requires
        is_plain_dib(dib),
    ensures
        dib_rgba(dib).len() == 4 * (header_of(dib).width * rows_of(header_of(dib))),
        forall|i: int|
            0 <= i < dib_rgba(dib).len() && i % 4 == 3 ==> #[trigger] dib_rgba(dib)[i] == 0xff,
{
    let w = header_of(dib).width;
    let n = rows_of(header_of(dib));
    assert(w * n >= 0) by (nonlinear_arith)
        requires
            w >= 0,
            n >= 0,
    ;
}

/// What is captured as a bitmap, kept as PNG and pasted as a bitmap again
/// still has the same pixels.
pub proof fn law_image_round_trip(dib: Seq<u8>, file: Seq<u8>)
    requires
        is_plain_dib(dib),
        rows_of(header_of(dib)) <= i32::MAX,
        4 * header_of(dib).width <= PNG_ROW_LIMIT,
        png_holds(
            file,
            header_of(dib).width as u32,
            rows_of(header_of(dib)) as u32,
            dib_rgba(dib),
        ),
    ensures
        dib_of_png(file) is Some,
        is_plain_dib(dib_of_png(file)->0),
        dib_rgba(dib_of_png(file)->0) == dib_rgba(dib),
{
    let w = header_of(dib).width as u32;
    let h = rows_of(header_of(dib)) as u32;
    let rgba = dib_rgba(dib);
    lemma_dib_opaque(dib);
    lemma_png_to_dib(file, w, h, rgba);
    law_written_dib_reads_back(w, h, rgba);
}

// ---------------------------------------------------------------------
// BGRA for the screen.
// ---------------------------------------------------------------------
/// The largest power of two that divides `mask`.
pub open spec fn lowest_bit(mask: nat) -> nat
    decreases mask,
{
    if mask == 0 || mask % 2 == 1 {
        1
    } else {
        2 * lowest_bit(mask / 2)
    }
}

/// The bits of `px` under `mask`, scaled to the range of a byte.
pub open spec fn masked_channel(px: u32, mask: u32) -> u8 {
    if mask == 0 {
        0
    } else {
        let unit = lowest_bit(mask as nat);
        (((px & mask) as nat / unit) * 255 / (mask as nat / unit)) as u8
    }
}

proof fn lemma_lowest_bit(mask: nat)
    requires
        mask > 0,
    ensures
        1 <= lowest_bit(mask) <= mask,
    decreases mask,
{
    if mask % 2 == 0 {
        lemma_lowest_bit(mask / 2);
    }
}

/// The largest power of two that divides `mask`.
fn find_lowest_bit(mask: u32) -> (r: u32)
    requires
        mask > 0,
    ensures
        r == lowest_bit(mask as nat),
    decreases mask,
{
    proof {
        lemma_lowest_bit(mask as nat);
    }
    if mask % 2 == 1 {
        1
    } else {
        2 * find_lowest_bit(mask / 2)
    }
}

/// The bits of `px` under `mask`, scaled to the range of a byte.
fn read_channel(px: u32, mask: u32) -> (r: u8)
    ensures
        r == masked_channel(px, mask),
{
    if mask == 0 {
        return 0;
    }
    let unit: u32 = find_lowest_bit(mask);
    proof {
        lemma_lowest_bit(mask as nat);
        lemma_div_non_zero(mask as int, unit as int);
    }
    assert(px & mask <= mask) by (bit_vector);
    let part: u64 = ((px & mask) / unit) as u64;
    let most: u64 = (mask / unit) as u64;
    proof {
        lemma_div_is_ordered((px & mask) as int, mask as int, unit as int);
        assert(part * 255 <= most * 255);
        lemma_div_is_ordered(part * 255, most * 255, most as int);
        lemma_div_multiples_vanish(255, most as int);
        assert(most * 255 == 255 * most);
    }
    (part * 255 / most) as u8
}

/// Where the channel masks stand: in the header, or behind one that has no
/// room for them.
pub open spec fn masks_offset(h: Header) -> int {
    if h.size < 52 {
        h.size as int
    } else {
        40
    }
}

/// Where the pixels of a bitmap with channel masks start.
pub open spec fn masked_pixels_offset(h: Header) -> int {
    if h.size < 52 {
        h.size + 12
    } else {
        h.size as int
    }
}

/// Whether `b` is a bitmap of 32-bit pixels with channel masks that holds all
/// of its rows.
pub open spec fn is_masked_dib(b: Seq<u8>) -> bool {
    let h = header_of(b);
    &&& b.len() >= 40
    &&& h.compression == 3
    &&& h.planes == 1
    &&& h.bits == 32
    &&& h.size >= 40
    &&& h.width > 0
    &&& h.height != 0
    &&& b.len() >= masked_pixels_offset(h) + 4 * (h.width * rows_of(h))
}

/// The mask of channel `c` of a BGRA pixel.
pub open spec fn channel_mask(b: Seq<u8>, c: int) -> u32 {
    le_u32(b, masks_offset(header_of(b)) + 8 - 4 * c)
}

/// The stored pixel that is pixel `p`, counted row by row from the top.
pub open spec fn masked_pixel(b: Seq<u8>, p: int) -> u32 {
    let h = header_of(b);
    le_u32(
        b,
        masked_pixels_offset(h) + 4 * (stored_row(h, p / h.width as int) * h.width + p
            % h.width as int),
    )
}

/// The pixels of a bitmap with channel masks as BGRA, all opaque.
pub open spec fn masked_bgra(b: Seq<u8>) -> Seq<u8> {
    let h = header_of(b);
    Seq::new(
        (4 * (h.width * rows_of(h))) as nat,
        |i: int|
            if i % 4 == 3 {
                0xff
            } else {
                masked_channel(masked_pixel(b, i / 4), channel_mask(b, i % 4))
            },
    )
}

/// The pixels of a bitmap as BGRA, row by row from the top and all opaque,
/// with the width and the height.
pub open spec fn dib_bgra(b: Seq<u8>) -> Option<(Seq<u8>, i32, i32)> {
    let h = header_of(b);
    if rows_of(h) > i32::MAX {
        None
    } else if is_plain_dib(b) {
        Some((swapped(dib_rgba(b)), h.width, rows_of(h) as i32))
    } else if is_masked_dib(b) {
        Some((masked_bgra(b), h.width, rows_of(h) as i32))
    } else {
        None
    }
}

/// The pixels of a bitmap with channel masks as BGRA.
fn masked_to_bgra(b: &[u8], h: &Header) -> (r: Vec<u8>)
    requires
        is_masked_dib(b@),
        *h == header_of(b@),
    ensures
        r@ == masked_bgra(b@),
{
    let masks: usize = if h.size < 52 {
        h.size as usize
    } else {
        40
    };
    let start: usize = if h.size < 52 {
        (h.size + 12) as usize
    } else {
        h.size as usize
    };
    let w: u64 = h.width as u64;
    let rows: u64 = row_count(h) as u64;
    assert(0 <= w * rows <= 0x7fff_ffff * 0x8000_0000) by (nonlinear_arith)
        requires
            0 <= w <= 0x7fff_ffff,
            0 <= rows <= 0x8000_0000,
    ;
    assert(start + 4 * (w * rows) <= b.len());
    let red: u32 = read_u32(b, masks);
    let green: u32 = read_u32(b, masks + 4);
    let blue: u32 = read_u32(b, masks + 8);
    let ghost all = masked_bgra(b@);
    let mut out: Vec<u8> = Vec::new();
    let n: u64 = w * rows;
    let mut p: u64 = 0;
    assert(all.take(0) =~= out@);
    while p < n
        invariant
            p <= n,
            n == w * rows,
            w == h.width,
            w > 0,
            rows == rows_of(*h),
            *h == header_of(b@),
            is_masked_dib(b@),
            start == masked_pixels_offset(*h),
            start + 4 * (w * rows) <= b.len(),
            red == channel_mask(b@, 2),
            green == channel_mask(b@, 1),
            blue == channel_mask(b@, 0),
            all == masked_bgra(b@),
            all.len() == 4 * n,
            out@ == all.take(4 * p),
        decreases n - p,
    {
        let y: u64 = p / w;
        let x: u64 = p % w;
        proof {
            lemma_fundamental_div_mod(p as int, w as int);
            assert(y < rows) by (nonlinear_arith)
                requires
                    w * y + x == p,
                    p < w * rows,
                    x >= 0,
                    w > 0,
            ;
        }
        let src: u64 = if h.height > 0 {
            rows - 1 - y
        } else {
            y
        };
        assert(0 <= src * w && src * w + w <= w * rows) by (nonlinear_arith)
            requires
                0 <= src,
                src + 1 <= rows,
                w >= 0,
        ;
        let at: usize = (start as u64 + 4 * (src * w + x)) as usize;
        let px: u32 = read_u32(b, at);
        assert(px == masked_pixel(b@, p as int));
        out.push(read_channel(px, blue));
        out.push(read_channel(px, green));
        out.push(read_channel(px, red));
        out.push(0xff);
        assert(out@ =~= all.take(4 * p + 4)) by {
            assert forall|i: int| 4 * p <= i < 4 * p + 4 implies #[trigger] all[i] == out@[i] by {
                assert(i / 4 == p);
            }
        }
        p += 1;
    }
    assert(all.take(all.len() as int) =~= all);
    out
}

/// The pixels of a bitmap as BGRA, row by row from the top and all opaque,
/// with the width and the height. Plain 24- and 32-bit bitmaps and 32-bit
/// bitmaps with channel masks can be read, whatever the length of the header.
pub fn decode_dib_to_bgra(dib: &[u8]) -> (r: Option<(Vec<u8>, i32, i32)>)
    ensures
        r is Some == dib_bgra(dib@) is Some,
        r matches Some((px, w, h)) ==> dib_bgra(dib@) == Some((px@, w, h)),
{
    if dib.len() < 40 {
        return None;
    }
    let h = read_header(dib);
    let rows: u32 = row_count(&h);
    if rows > 0x7fff_ffff {
        return None;
    }
    if let Some((rgba, _, _)) = dib_to_rgba(dib) {
        proof {
            let n = h.width * rows_of(h);
            assert(n >= 0) by (nonlinear_arith)
                requires
                    n == h.width * rows_of(h),
                    h.width >= 0,
                    rows_of(h) >= 0,
            ;
            assert(rgba@.len() == 4 * n);
        }
        return Some((swap_channels(rgba.as_slice()), h.width, rows as i32));
    }
    if h.compression != 3 || h.planes != 1 || h.bits != 32 || h.size < 40 || h.width <= 0
        || h.height == 0 {
        return None;
    }
    let start: u128 = if h.size < 52 {
        h.size as u128 + 12
    } else {
        h.size as u128
    };
    let w: u32 = h.width as u32;
    assert(0 <= w * rows <= 0x7fff_ffff * 0x7fff_ffff) by (nonlinear_arith)
        requires
            0 <= w <= 0x7fff_ffff,
            0 <= rows <= 0x7fff_ffff,
    ;
    if (dib.len() as u128) < start + 4 * (w as u128 * rows as u128) {
        return None;
    }
    Some((masked_to_bgra(dib, &h), h.width, rows as i32))
}

/// The pixels of an image as BGRA, with the width and the height: of a PNG
/// file as it decodes, of anything else as a bitmap.
pub open spec fn image_bgra(raw: Seq<u8>) -> Option<(Seq<u8>, i32, i32)> {
    if is_png(raw) {
        match png_frame(raw) {
            Some(f) => if dib_of_frame(f) is Some && f.0 <= i32::MAX && f.1 <= i32::MAX {
                Some((swapped(frame_rgba(f.2, f.4)), f.0 as i32, f.1 as i32))
            } else {
                None
            },
            None => None,
        }
    } else {
        dib_bgra(raw)
    }
}

/// The pixels of an image as BGRA, row by row from the top, with the width and
/// the height.
pub fn decode_to_bgra(raw: &[u8]) -> (r: Option<(Vec<u8>, i32, i32)>)
    requires
        png_decodable(raw@),
    ensures
        r is Some == image_bgra(raw@) is Some,
        r matches Some((px, w, h)) ==> image_bgra(raw@) == Some((px@, w, h)),
{
    if looks_like_png(raw) {
        match decode_png(raw) {
            None => None,
            Some(f) => frame_to_bgra(&f),
        }
    } else {
        decode_dib_to_bgra(raw)
    }
}

/// The pixels of a decoded image as BGRA, with the width and the height.
pub fn frame_to_bgra(f: &Frame) -> (r: Option<(Vec<u8>, i32, i32)>)
    ensures
        r is Some == (dib_of_frame(f@) is Some && f.width <= i32::MAX && f.height <= i32::MAX),
        r matches Some((px, w, h)) ==> {
            &&& px@ == swapped(frame_rgba(f.kind, f.pixels@))
            &&& w == f.width
            &&& h == f.height
        },
{
    if f.width == 0 || f.height == 0 || !f.eight_bit || f.kind == PixelKind::Indexed || f.width
        > 0x7fff_ffff || f.height > 0x7fff_ffff {
        return None;
    }
    let rgba = frame_to_rgba(f);
    Some((swap_channels(rgba.as_slice()), f.width as i32, f.height as i32))
}

// ---------------------------------------------------------------------
// Bitmaps byte by byte.
// ---------------------------------------------------------------------
/// The number that four bytes from `i` on make up, the least byte first.
pub open spec fn four_bytes(b: Seq<u8>, i: int) -> int {
    b[i] + 0x100 * b[i + 1] + 0x1_0000 * b[i + 2] + 0x100_0000 * b[i + 3]
}

/// Whether the header of `b` announces a picture of `w` columns and `h` rows at
/// `bits` bits to the pixel, behind `size` bytes of header, with the given form
/// of compression; the rows come from the bottom up, or from the top down.
pub open spec fn announces(
    b: Seq<u8>,
    size: int,
    w: int,
    h: int,
    bits: int,
    compression: int,
    bottom_up: bool,
) -> bool {
    &&& b.len() >= 40
    &&& four_bytes(b, 0) == size
    &&& four_bytes(b, 4) == w
    &&& four_bytes(b, 8) == if bottom_up {
        h
    } else {
        0x1_0000_0000 - h
    }
    &&& b[12] == 1
    &&& b[13] == 0
    &&& b[14] + 0x100 * b[15] == bits
    &&& four_bytes(b, 16) == compression
    &&& 40 <= size
    &&& 0 < w <= 0x7fff_ffff
    &&& 0 < h <= 0x7fff_ffff
}

proof fn lemma_announced(
    b: Seq<u8>,
    size: int,
    w: int,
    h: int,
    bits: int,
    compression: int,
    bottom_up: bool,
)
    requires
        announces(b, size, w, h, bits, compression, bottom_up),
    ensures
        header_of(b) == (Header {
            size: size as u32,
            width: w as i32,
            height: if bottom_up {
                h as i32
            } else {
                (-h) as i32
            },
            planes: 1,
            bits: bits as u16,
            compression: compression as u32,
        }),
        0 <= size <= 0xffff_ffff,
        0 <= bits <= 0xffff,
        0 <= compression <= 0xffff_ffff,
        rows_of(header_of(b)) == h,
{
}

/// The pixels of an ordinary bitmap: each row of a picture at 24 or 32 bits to
/// the pixel takes whole groups of four bytes; where the rows are stored from
/// the bottom up, the last one is the top of the picture. Blue comes first in
/// the bitmap and red in the pixels, which are opaque.
pub proof fn law_bitmap_pixels(
    b: Seq<u8>,
    size: int,
    w: int,
    h: int,
    bits: int,
    bottom_up: bool,
    x: int,
    y: int,
)
    requires
        announces(b, size, w, h, bits, 0, bottom_up),
        bits == 24 || bits == 32,
        b.len() >= size + (w * bits + 31) / 32 * 4 * h,
        0 <= x < w,
        0 <= y < h,
    ensures
        is_plain_dib(b),
        header_of(b).width == w,
        rows_of(header_of(b)) == h,
        dib_rgba(b).len() == 4 * (w * h),
        ({
            let p = 4 * (y * w + x);
            let from = size + (if bottom_up {
                h - 1 - y
            } else {
                y
            }) * ((w * bits + 31) / 32 * 4) + x * (bits / 8);
            &&& 0 <= p && p + 3 < dib_rgba(b).len()
            &&& dib_rgba(b)[p] == b[from + 2]
            &&& dib_rgba(b)[p + 1] == b[from + 1]
            &&& dib_rgba(b)[p + 2] == b[from]
            &&& dib_rgba(b)[p + 3] == 255
            &&& dib_bgra(b) matches Some((shown, sw, sh)) && sw == w && sh == h && shown.len() == 4
                * (w * h) && shown[p] == b[from] && shown[p + 1] == b[from + 1] && shown[p + 2]
                == b[from + 2] && shown[p + 3] == 255
        }),
{
    lemma_announced(b, size, w, h, bits, 0, bottom_up);
    let hd = header_of(b);
    assert(stride_of(hd) == (w * bits + 31) / 32 * 4);
    assert((w * bits + 31) / 32 * 4 * h == stride_of(hd) * h);
    assert(is_plain_dib(b));
    assert(0 <= y * w && y * w + w <= w * h) by (nonlinear_arith)
        requires
            0 <= y,
            y + 1 <= h,
            w > 0,
    ;
    let n = y * w + x;
    lemma_fundamental_div_mod_converse(n, w, y, x);
    let p = 4 * n;
    assert(p / 4 == n && (p + 1) / 4 == n && (p + 2) / 4 == n && (p + 3) / 4 == n);
    let from = pixel_offset(hd, x, y);
    assert(hd.bits as int / 8 == bits / 8);
    assert(dib_rgba(b)[p] == b[from + 2]);
    assert(dib_rgba(b)[p + 1] == b[from + 1]);
    assert(dib_rgba(b)[p + 2] == b[from]);
}

/// Which way up a bitmap is stored makes no difference: one with its rows the
/// other way round and its height negated is the same picture.
pub proof fn law_turned_bitmap_is_the_same(
    b: Seq<u8>,
    turned: Seq<u8>,
    size: int,
    w: int,
    h: int,
    bits: int,
)
    requires
        announces(b, size, w, h, bits, 0, true),
        announces(turned, size, w, h, bits, 0, false),
        bits == 24 || bits == 32,
        b.len() >= size + (w * bits + 31) / 32 * 4 * h,
        turned.len() >= size + (w * bits + 31) / 32 * 4 * h,
        forall|y: int, k: int|
            0 <= y < h && 0 <= k < (w * bits + 31) / 32 * 4 ==> turned[size + y * ((w * bits + 31)
                / 32 * 4) + k] == #[trigger] b[size + (h - 1 - y) * ((w * bits + 31) / 32 * 4) + k],
    ensures
        dib_rgba(turned) == dib_rgba(b),
        dib_bgra(turned) == dib_bgra(b),
{
    let stride = (w * bits + 31) / 32 * 4;
    law_bitmap_pixels(b, size, w, h, bits, true, 0, 0);
    law_bitmap_pixels(turned, size, w, h, bits, false, 0, 0);
    let one = dib_rgba(b);
    let other = dib_rgba(turned);
    assert forall|i: int| 0 <= i < one.len() implies #[trigger] one[i] == other[i] by {
        let n = i / 4;
        let y = n / w;
        let x = n % w;
        lemma_fundamental_div_mod(n, w);
        assert(y * w == w * y) by (nonlinear_arith);
        assert(0 <= y) by (nonlinear_arith)
            requires
                n >= 0,
                w > 0,
                y == n / w,
        ;
        assert(y < h) by (nonlinear_arith)
            requires
                w * y + x == n,
                n < w * h,
                x >= 0,
                w > 0,
        ;
        assert(n < w * h);
        law_bitmap_pixels(b, size, w, h, bits, true, x, y);
        law_bitmap_pixels(turned, size, w, h, bits, false, x, y);
        let step = bits / 8;
        assert(0 <= x * step && x * step + step <= w * step) by (nonlinear_arith)
            requires
                0 <= x,
                x + 1 <= w,
                step >= 0,
        ;
        assert(w * step <= stride);
        let k = x * step;
        assert(turned[size + y * stride + k] == b[size + (h - 1 - y) * stride + k]);
        assert(turned[size + y * stride + (k + 1)] == b[size + (h - 1 - y) * stride + (k + 1)]);
        assert(turned[size + y * stride + (k + 2)] == b[size + (h - 1 - y) * stride + (k + 2)]);
        assert(i == 4 * n || i == 4 * n + 1 || i == 4 * n + 2 || i == 4 * n + 3);
    }
    assert(one =~= other);
}

/// Only bitmaps of one plane at 24 or 32 bits, not compressed, that hold all of
/// their rows are kept as PNG.
pub proof fn law_other_bitmaps_stay(b: Seq<u8>)
    requires
        is_plain_dib(b),
    ensures
        b.len() >= 40,
        b[12] == 1 && b[13] == 0,
        (b[14] == 24 || b[14] == 32) && b[15] == 0,
        b[16] == 0 && b[17] == 0 && b[18] == 0 && b[19] == 0,
        0 < four_bytes(b, 4) < 0x8000_0000,
        four_bytes(b, 8) != 0,
        four_bytes(b, 0) >= 40,
{
    assert(le_u32(b, 16) == 0);
    assert(le_u16(b, 12) == 1);
}

/// The pixels of a bitmap with channel masks, which stand in a header that is
/// long enough for them and behind one that is not: where each mask is one
/// byte, the pixels are the bytes under the masks.
pub proof fn law_masked_pixels(
    b: Seq<u8>,
    size: int,
    w: int,
    h: int,
    bottom_up: bool,
    x: int,
    y: int,
)
    requires
        announces(b, size, w, h, 32, 3, bottom_up),
        b.len() >= size + (if size < 52 {
            12int
        } else {
            0
        }) + 4 * (w * h),
        0 <= x < w,
        0 <= y < h,
    ensures
        !is_plain_dib(b),
        ({
            let masks = if size < 52 {
                size
            } else {
                40
            };
            let start = if size < 52 {
                size + 12
            } else {
                size
            };
            let from = start + 4 * ((if bottom_up {
                h - 1 - y
            } else {
                y
            }) * w + x);
            let p = 4 * (y * w + x);
            &&& dib_bgra(b) matches Some((shown, sw, sh)) && sw == w && sh == h && shown.len() == 4
                * (w * h) && 0 <= p && p + 3 < shown.len() && shown[p + 3] == 255 && (four_bytes(
                b,
                masks,
            ) == 0xff_0000 && four_bytes(b, masks + 4) == 0xff00 && four_bytes(b, masks + 8) == 0xff
                ==> shown[p] == b[from] && shown[p + 1] == b[from + 1] && shown[p + 2] == b[from
                + 2]) && (four_bytes(b, masks) == 0xff && four_bytes(b, masks + 4) == 0xff00
                && four_bytes(b, masks + 8) == 0xff_0000 ==> shown[p] == b[from + 2] && shown[p + 1]
                == b[from + 1] && shown[p + 2] == b[from])
        }),
{
    lemma_announced(b, size, w, h, 32, 3, bottom_up);
    let hd = header_of(b);
    assert(is_masked_dib(b));
    assert(0 <= y * w && y * w + w <= w * h) by (nonlinear_arith)
        requires
            0 <= y,
            y + 1 <= h,
            w > 0,
    ;
    let n = y * w + x;
    lemma_fundamental_div_mod_converse(n, w, y, x);
    let p = 4 * n;
    assert(p / 4 == n && (p + 1) / 4 == n && (p + 2) / 4 == n && (p + 3) / 4 == n);
    let src = stored_row(hd, y);
    assert(0 <= src * w && src * w + w <= w * h) by (nonlinear_arith)
        requires
            0 <= src,
            src + 1 <= h,
            w > 0,
    ;
    let from = masked_pixels_offset(hd) + 4 * (src * w + x);
    let px = masked_pixel(b, n);
    assert(px == le_u32(b, from));
    lemma_byte_masks(b[from], b[from + 1], b[from + 2], b[from + 3], px);
}

proof fn lemma_byte_masks(b0: u8, b1: u8, b2: u8, b3: u8, px: u32)
    requires
        px == b0 + 0x100 * b1 + 0x1_0000 * b2 + 0x100_0000 * b3,
    ensures
        masked_channel(px, 0xff) == b0,
        masked_channel(px, 0xff00) == b1,
        masked_channel(px, 0xff_0000) == b2,
{
    assert(px & 0xff == px % 0x100) by (bit_vector);
    assert(px & 0xff00 == px / 0x100 % 0x100 * 0x100) by (bit_vector);
    assert(px & 0xff_0000 == px / 0x1_0000 % 0x100 * 0x1_0000) by (bit_vector);
    lemma_four_bytes(b0 as int, b1 as int, b2 as int, b3 as int);
    lemma_byte_units();
    lemma_byte_mask(px, 0xff, 1, b0);
    lemma_byte_mask(px, 0xff00, 0x100, b1);
    lemma_byte_mask(px, 0xff_0000, 0x1_0000, b2);
}

proof fn lemma_four_bytes(b0: int, b1: int, b2: int, b3: int)
    requires
        0 <= b0 < 256,
        0 <= b1 < 256,
        0 <= b2 < 256,
    ensures
        ({
            let n = b0 + 0x100 * b1 + 0x1_0000 * b2 + 0x100_0000 * b3;
            &&& n % 0x100 == b0
            &&& n / 0x100 % 0x100 == b1
            &&& n / 0x1_0000 % 0x100 == b2
        }),
{
    let n = b0 + 0x100 * b1 + 0x1_0000 * b2 + 0x100_0000 * b3;
    lemma_fundamental_div_mod_converse(n, 0x100, b1 + 0x100 * b2 + 0x1_0000 * b3, b0);
    lemma_fundamental_div_mod_converse(n / 0x100, 0x100, b2 + 0x100 * b3, b1);
    lemma_fundamental_div_mod_converse(n, 0x1_0000, b2 + 0x100 * b3, b0 + 0x100 * b1);
    lemma_fundamental_div_mod_converse(n / 0x1_0000, 0x100, b3, b2);
}

proof fn lemma_byte_units()
    ensures
        lowest_bit(0xff) == 1,
        lowest_bit(0xff00) == 0x100,
        lowest_bit(0xff_0000) == 0x1_0000,
{
    reveal_with_fuel(lowest_bit, 18);
}

proof fn lemma_byte_mask(px: u32, mask: u32, unit: nat, v: u8)
    requires
        unit > 0,
        mask == 255 * unit,
        lowest_bit(mask as nat) == unit,
        px & mask == v * unit,
    ensures
        masked_channel(px, mask) == v,
{
    let u = unit as int;
    lemma_div_multiples_vanish(255, u);
    lemma_div_multiples_vanish(v as int, u);
    assert(255 * u == mask as int);
    assert((px & mask) as int == v as int * u);
    assert(mask as nat / unit == 255);
    assert((px & mask) as nat / unit == v as nat);
    assert(v as nat * 255 / 255 == v as nat);
}

/// A channel is dark where none of its bits are set and full where all are,
/// whatever the mask.
pub proof fn law_masked_channel_ends(px: u32, mask: u32)
    requires
        mask != 0,
    ensures
        px & mask == 0 ==> masked_channel(px, mask) == 0,
        px & mask == mask ==> masked_channel(px, mask) == 255,
{
    lemma_lowest_bit(mask as nat);
    let unit = lowest_bit(mask as nat) as int;
    lemma_div_non_zero(mask as int, unit);
    let most = mask as int / unit;
    assert(most * 255 == 255 * most);
    lemma_div_multiples_vanish(255, most);
    assert(0int * 255 / most == 0) by (nonlinear_arith)
        requires
            most > 0,
    ;
    assert(0int / unit == 0) by (nonlinear_arith)
        requires
            unit > 0,
    ;
}

/// The pixels of a decoded image: grey ones are as bright in every channel,
/// and what has no alpha is opaque.
pub proof fn law_frame_pixels(kind: PixelKind, px: Seq<u8>, p: int)
    requires
        0 <= p,
    ensures
        kind == PixelKind::Rgba && 4 * p + 3 < px.len() ==> {
            let all = frame_rgba(kind, px);
            4 * p + 3 < all.len() && all.subrange(4 * p, 4 * p + 4) == px.subrange(
                4 * p,
                4 * p + 4,
            )
        },
        kind == PixelKind::Rgb && 3 * p + 2 < px.len() ==> {
            let all = frame_rgba(kind, px);
            4 * p + 3 < all.len() && all.subrange(4 * p, 4 * p + 4) == px.subrange(
                3 * p,
                3 * p + 3,
            ).push(255)
        },
        kind == PixelKind::GrayAlpha && 2 * p + 1 < px.len() ==> {
            let all = frame_rgba(kind, px);
            let g = px[2 * p];
            4 * p + 3 < all.len() && all.subrange(4 * p, 4 * p + 4) == seq![g, g, g, px[2 * p + 1]]
        },
        kind == PixelKind::Gray && p < px.len() ==> {
            let all = frame_rgba(kind, px);
            let g = px[p];
            4 * p + 3 < all.len() && all.subrange(4 * p, 4 * p + 4) == seq![g, g, g, 255u8]
        },
{
    let all = frame_rgba(kind, px);
    assert(4 * p / 4 == p && (4 * p + 1) / 4 == p && (4 * p + 2) / 4 == p && (4 * p + 3) / 4 == p);
    let part = all.subrange(4 * p, 4 * p + 4);
    if kind == PixelKind::Rgba && 4 * p + 3 < px.len() {
        assert(part =~= px.subrange(4 * p, 4 * p + 4));
    }
    if kind == PixelKind::Rgb && 3 * p + 2 < px.len() {
        assert(part =~= px.subrange(3 * p, 3 * p + 3).push(255));
    }
    if kind == PixelKind::GrayAlpha && 2 * p + 1 < px.len() {
        assert(part =~= seq![px[2 * p], px[2 * p], px[2 * p], px[2 * p + 1]]);
    }
    if kind == PixelKind::Gray && p < px.len() {
        assert(part =~= seq![px[p], px[p], px[p], 255u8]);
    }
}

/// An image that is not empty, has eight bits to the channel and no palette
/// left is written as a bitmap of its size, from the top down at 32 bits to the
/// pixel, blue first; no other image is.
pub proof fn law_written_bitmap(f: (u32, u32, PixelKind, bool, Seq<u8>), p: int)
    ensures
        dib_of_frame(f) is Some == (f.0 > 0 && f.1 > 0 && f.3 && f.2 != PixelKind::Indexed),
        dib_of_frame(f) matches Some(d) ==> {
            &&& d.len() >= 40
            &&& four_bytes(d, 0) == 40
            &&& four_bytes(d, 4) == f.0
            &&& four_bytes(d, 8) == 0x1_0000_0000 - f.1
            &&& d[12] == 1 && d[13] == 0 && d[14] == 32 && d[15] == 0
            &&& four_bytes(d, 16) == 0
            &&& f.2 == PixelKind::Rgba && 0 <= p && 4 * p + 3 < f.4.len() ==> {
                &&& d.len() >= 44 + 4 * p
                &&& d[40 + 4 * p] == f.4[4 * p + 2]
                &&& d[41 + 4 * p] == f.4[4 * p + 1]
                &&& d[42 + 4 * p] == f.4[4 * p]
                &&& d[43 + 4 * p] == f.4[4 * p + 3]
            }
        },
{
    if dib_of_frame(f) is Some {
        let (w, h) = (f.0, f.1);
        let head = dib_head(w, h);
        let rgba = frame_rgba(f.2, f.4);
        let d = head + swapped(rgba);
        let negated = ((0x1_0000_0000 - h) % 0x1_0000_0000) as u32;
        lemma_head_parts(w, h);
        lemma_field32(head, swapped(rgba), 0, 40);
        lemma_field32(head, swapped(rgba), 4, w);
        lemma_field32(head, swapped(rgba), 8, negated);
        lemma_field32(head, swapped(rgba), 16, 0);
        assert(negated == 0x1_0000_0000 - h);
        let one = head.subrange(12, 14);
        let bits = head.subrange(14, 16);
        assert(d[12] == one[0] && d[13] == one[1] && d[14] == bits[0] && d[15] == bits[1]);
        if f.2 == PixelKind::Rgba && 0 <= p && 4 * p + 3 < f.4.len() {
            law_frame_pixels(f.2, f.4, p);
            let part = rgba.subrange(4 * p, 4 * p + 4);
            let from = f.4.subrange(4 * p, 4 * p + 4);
            assert(rgba[4 * p] == part[0] && rgba[4 * p + 1] == part[1]);
            assert(rgba[4 * p + 2] == part[2] && rgba[4 * p + 3] == part[3]);
            assert(from[0] == f.4[4 * p] && from[1] == f.4[4 * p + 1]);
            assert(from[2] == f.4[4 * p + 2] && from[3] == f.4[4 * p + 3]);
            let s = swapped(rgba);
            assert(d[40 + 4 * p] == s[4 * p] && d[41 + 4 * p] == s[4 * p + 1]);
            assert(d[42 + 4 * p] == s[4 * p + 2] && d[43 + 4 * p] == s[4 * p + 3]);
        }
    }
}

/// A bitmap that is cut off is not read: it has to hold all of the rows that its
/// header announces, and the masks in front of them where it has any.
pub proof fn law_bitmap_is_whole(
    b: Seq<u8>,
    size: int,
    w: int,
    h: int,
    bits: int,
    compression: int,
    bottom_up: bool,
)
    requires
        announces(b, size, w, h, bits, compression, bottom_up),
    ensures
        is_plain_dib(b) == (compression == 0 && (bits == 24 || bits == 32) && b.len() >= size + (w
            * bits + 31) / 32 * 4 * h),
        dib_bgra(b) is Some == (is_plain_dib(b) || (compression == 3 && bits == 32 && b.len()
            >= size + (if size < 52 {
            12int
        } else {
            0
        }) + 4 * (w * h))),
{
    lemma_announced(b, size, w, h, bits, compression, bottom_up);
    let hd = header_of(b);
    if bits == 24 {
        assert(w * bits == w * 24);
        assert(stride_of(hd) == (w * bits + 31) / 32 * 4);
    } else if bits == 32 {
        assert(w * bits == w * 32);
        assert(stride_of(hd) == (w * bits + 31) / 32 * 4);
    }
}

/// The file of a plain bitmap is the PNG file of its pixels, and the bitmap of
/// a PNG file is that of the frame that is decoded from it.
pub proof fn law_image_files(
    b: Seq<u8>,
    size: int,
    w: int,
    h: int,
    bits: int,
    bottom_up: bool,
    file: Seq<u8>,
)
    requires
        announces(b, size, w, h, bits, 0, bottom_up),
    ensures
        png_of_dib(b) == png_file(dib_rgba(b), w as u32, h as u32),
        png_frame(file) is None ==> dib_of_png(file) is None,
        png_frame(file) matches Some(f) ==> dib_of_png(file) == dib_of_frame(f),
{
    lemma_announced(b, size, w, h, bits, 0, bottom_up);
}

/// A stored image is shown from its PNG file or from its bitmap, whichever it
/// is: the frame of a PNG file with red and blue exchanged, unless it is empty,
/// not in eight bits to the channel, or larger than can be shown.
pub proof fn law_stored_image_is_shown(raw: Seq<u8>, p: int)
    ensures
        !is_png(raw) ==> image_bgra(raw) == dib_bgra(raw),
        is_png(raw) && png_frame(raw) is None ==> image_bgra(raw) is None,
        is_png(raw) ==> (png_frame(raw) matches Some(f) ==> image_bgra(raw) is Some == (0 < f.0
            <= 0x7fff_ffff && 0 < f.1 <= 0x7fff_ffff && f.3 && f.2 != PixelKind::Indexed)),
        is_png(raw) ==> (png_frame(raw) matches Some(f) ==> (image_bgra(raw) matches Some(
            (px, w, h),
        ) ==> {
            let all = frame_rgba(f.2, f.4);
            &&& w == f.0
            &&& h == f.1
            &&& px.len() == all.len()
            &&& 0 <= p && 4 * p + 3 < all.len() ==> px[4 * p] == all[4 * p + 2] && px[4 * p + 1]
                == all[4 * p + 1] && px[4 * p + 2] == all[4 * p] && px[4 * p + 3] == all[4 * p + 3]
        })),
{
    assert((4 * p) % 4 == 0 && (4 * p + 1) % 4 == 1 && (4 * p + 2) % 4 == 2 && (4 * p + 3) % 4
        == 3);
}

/// The unit of a mask is the largest power of two that divides it.
pub proof fn law_lowest_bit(n: nat)
    ensures
        n % 2 == 1 ==> lowest_bit(n) == 1,
        n > 0 ==> lowest_bit(2 * n) == 2 * lowest_bit(n),
{
    assert((2 * n) % 2 == 0 && (2 * n) / 2 == n);
}

/// A channel is scaled in proportion to what its mask can hold, rounded down.
pub proof fn law_masked_channel_scales(px: u32, mask: u32, unit: int, most: int, v: int)
    requires
        mask != 0,
        unit == lowest_bit(mask as nat),
        mask == most * unit,
        px & mask == v * unit,
        0 <= v <= most,
    ensures
        masked_channel(px, mask) * most <= 255 * v < (masked_channel(px, mask) + 1) * most,
        masked_channel(px, 0) == 0,
{
    lemma_lowest_bit(mask as nat);
    lemma_div_multiples_vanish(most, unit);
    lemma_div_multiples_vanish(v, unit);
    assert(unit * most == most * unit) by (nonlinear_arith);
    assert(unit * v == v * unit) by (nonlinear_arith);
    assert(most > 0) by (nonlinear_arith)
        requires
            most * unit > 0,
            unit > 0,
    ;
    let q = v * 255 / most;
    lemma_fundamental_div_mod(v * 255, most);
    assert(q * most == most * q) by (nonlinear_arith);
    assert((q + 1) * most == q * most + most) by (nonlinear_arith);
    assert(0 <= q <= 255) by (nonlinear_arith)
        requires
            most * q <= v * 255 < most * q + most,
            0 <= v <= most,
            most > 0,
    ;
    assert(mask as nat / lowest_bit(mask as nat) == most);
    assert((px & mask) as nat / lowest_bit(mask as nat) == v);
}

/// How many pixels a decoded image has: one for each byte of a grey picture, and
/// one for every two, three or four bytes of those with more channels.
pub proof fn law_frame_size(px: Seq<u8>)
    ensures
        frame_rgba(PixelKind::Gray, px).len() == 4 * px.len(),
        frame_rgba(PixelKind::GrayAlpha, px).len() == 4 * (px.len() / 2),
        frame_rgba(PixelKind::Rgb, px).len() == 4 * (px.len() / 3),
        frame_rgba(PixelKind::Rgba, px).len() == 4 * (px.len() / 4),
{
}

/// The rest of a written bitmap: the number of bytes of its pixels stands in its
/// header, nothing else does, and the pixels follow it, blue first.
pub proof fn law_written_pixels(f: (u32, u32, PixelKind, bool, Seq<u8>), p: int, i: int)
    ensures
        dib_of_frame(f) matches Some(d) ==> {
            let all = frame_rgba(f.2, f.4);
            &&& d.len() == 40 + all.len()
            &&& four_bytes(d, 20) == 4 * (f.0 * f.1) % 0x1_0000_0000
            &&& (24 <= i < 40 ==> d[i] == 0)
            &&& 0 <= p && 4 * p + 3 < all.len() ==> {
                &&& d[40 + 4 * p] == all[4 * p + 2]
                &&& d[41 + 4 * p] == all[4 * p + 1]
                &&& d[42 + 4 * p] == all[4 * p]
                &&& d[43 + 4 * p] == all[4 * p + 3]
            }
        },
{
    if dib_of_frame(f) is Some {
        let (w, h) = (f.0, f.1);
        let head = dib_head(w, h);
        let all = frame_rgba(f.2, f.4);
        let s = swapped(all);
        let d = head + s;
        lemma_head_parts(w, h);
        lemma_head_rest(w, h);
        assert(0 <= w * h) by (nonlinear_arith)
            requires
                w >= 0,
                h >= 0,
        ;
        lemma_field32(head, s, 20, (4 * (w * h) % 0x1_0000_0000) as u32);
        if 24 <= i < 40 {
            assert(d[i] == head[i]);
            assert(head.subrange(24, 40)[i - 24] == head[i]);
        }
        if 0 <= p && 4 * p + 3 < all.len() {
            assert((4 * p) % 4 == 0 && (4 * p + 1) % 4 == 1 && (4 * p + 2) % 4 == 2 && (4 * p + 3)
                % 4 == 3);
            assert(d[40 + 4 * p] == s[4 * p] && d[41 + 4 * p] == s[4 * p + 1]);
            assert(d[42 + 4 * p] == s[4 * p + 2] && d[43 + 4 * p] == s[4 * p + 3]);
        }
    }
}

proof fn lemma_head_rest(width: u32, height: u32)
    ensures
        ({
            let head = dib_head(width, height);
            &&& head.len() == 40
            &&& head.subrange(20, 24) == le32((4 * (width * height) % 0x1_0000_0000) as u32)
            &&& forall|i: int| 0 <= i < 16 ==> #[trigger] head.subrange(24, 40)[i] == 0
        }),
{
    let negated = ((0x1_0000_0000 - height) % 0x1_0000_0000) as u32;
    let size = (4 * (width * height) % 0x1_0000_0000) as u32;
    let zeros = le32(0) + le32(0) + le32(0) + le32(0);
    let front = le32(40) + le32(width) + le32(negated) + le16(1) + le16(32) + le32(0);
    let head = dib_head(width, height);
    assert(head =~= front + le32(size) + zeros) by {
        reveal(dib_head);
    }
    assert(front.len() == 20);
    assert(head.subrange(20, 24) =~= le32(size));
    assert(head.subrange(24, 40) =~= zeros);
    lemma_zeros();
}

proof fn lemma_zeros()
    ensures
        forall|i: int|
            0 <= i < 16 ==> #[trigger] (le32(0) + le32(0) + le32(0) + le32(0))[i] == 0,
{
    assert(le32(0)[0] == 0 && le32(0)[1] == 0 && le32(0)[2] == 0 && le32(0)[3] == 0);
}

/// Exchanging red and blue twice changes nothing, and once nothing but the two.
pub proof fn law_swapped(px: Seq<u8>, p: int)
    requires
        px.len() % 4 == 0,
    ensures
        swapped(swapped(px)) == px,
        swapped(px).len() == px.len(),
        0 <= p && 4 * p + 3 < px.len() ==> swapped(px).subrange(4 * p, 4 * p + 4) == seq![
            px[4 * p + 2],
            px[4 * p + 1],
            px[4 * p],
            px[4 * p + 3],
        ],
{
    let s = swapped(px);
    assert forall|i: int| 0 <= i < px.len() implies #[trigger] swapped(s)[i] == px[i] by {
        if i % 4 == 0 {
            assert((i + 2) % 4 == 2);
        } else if i % 4 == 2 {
            assert((i - 2) % 4 == 0);
        }
    }
    assert(swapped(s) =~= px);
    if 0 <= p && 4 * p + 3 < px.len() {
        assert((4 * p) % 4 == 0 && (4 * p + 1) % 4 == 1 && (4 * p + 2) % 4 == 2 && (4 * p + 3) % 4
            == 3);
        assert(s.subrange(4 * p, 4 * p + 4) =~= seq![
            px[4 * p + 2],
            px[4 * p + 1],
            px[4 * p],
            px[4 * p + 3],
        ]);
    }
}

/// Only bitmaps of one plane can be shown, at 24 or 32 bits without compression
/// or at 32 bits with masks, and none that has too many rows to count.
pub proof fn law_shown_bitmaps(b: Seq<u8>)
    requires
        dib_bgra(b) is Some,
    ensures
        b.len() >= 40,
        b[12] == 1 && b[13] == 0,
        (b[14] == 24 || b[14] == 32) && b[15] == 0,
        (b[16] == 0 || (b[16] == 3 && b[14] == 32)) && b[17] == 0 && b[18] == 0 && b[19] == 0,
        0 < four_bytes(b, 4) < 0x8000_0000,
        four_bytes(b, 8) != 0,
        four_bytes(b, 8) != 0x8000_0000,
        four_bytes(b, 0) >= 40,
{
    assert(le_u16(b, 12) == 1);
    assert(le_u32(b, 16) == 0 || le_u32(b, 16) == 3);
}

} // verus!
