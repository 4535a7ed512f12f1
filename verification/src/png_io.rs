//! PNG files in and out, by way of the `png` crate.

use vstd::prelude::*;

use crate::bytes::read_be_u32;
use crate::bytes::be_u32;

verus! {

/// The channels that a decoded pixel is made of.
#[derive(Clone, Copy, Debug, PartialEq, Eq, Structural)]
pub enum PixelKind {
    Gray,
    GrayAlpha,
    Rgb,
    Rgba,
    Indexed,
}

/// A decoded image.
#[derive(Clone, Debug)]
pub struct Frame {
    pub width: u32,
    pub height: u32,
    pub kind: PixelKind,
    /// Whether each channel is one byte wide.
    pub eight_bit: bool,
    /// The channels of the pixels, row by row from the top.
    pub pixels: Vec<u8>,
}

impl View for Frame {
    type V = (u32, u32, PixelKind, bool, Seq<u8>);

    open spec fn view(&self) -> (u32, u32, PixelKind, bool, Seq<u8>) {
        (self.width, self.height, self.kind, self.eight_bit, self.pixels@)
    }
}

/// The eight bytes that every PNG file starts with.
pub open spec fn png_signature() -> Seq<u8> {
    seq![0x89u8, 0x50, 0x4e, 0x47, 0x0d, 0x0a, 0x1a, 0x0a]
}

/// Whether `b` starts with the PNG signature.
pub open spec fn is_png(b: Seq<u8>) -> bool {
    b.len() >= 8 && b.take(8) == png_signature()
}

/// Whether `bytes` starts with the PNG signature.
pub fn looks_like_png(bytes: &[u8]) -> (r: bool)
    ensures
        r == is_png(bytes@),
{
    if bytes.len() < 8 {
        return false;
    }
    let r = bytes[0] == 0x89 && bytes[1] == 0x50 && bytes[2] == 0x4e && bytes[3] == 0x47 && bytes[4]
        == 0x0d && bytes[5] == 0x0a && bytes[6] == 0x1a && bytes[7] == 0x0a;
    proof {
        let t = bytes@.take(8);
        if r {
            assert(t =~= png_signature());
        } else {
            assert(t[0] == bytes@[0] && t[1] == bytes@[1] && t[2] == bytes@[2] && t[3] == bytes@[3]
                && t[4] == bytes@[4] && t[5] == bytes@[5] && t[6] == bytes@[6] && t[7]
                == bytes@[7]);
        }
    }
    r
}

// ---------------------------------------------------------------------
// What the decoder takes.
// ---------------------------------------------------------------------
/// The names of chunks, as big-endian numbers.
pub const CHUNK_IHDR: u32 = 0x4948_4452;

pub const CHUNK_PLTE: u32 = 0x504c_5445;

pub const CHUNK_IDAT: u32 = 0x4944_4154;

pub const CHUNK_IEND: u32 = 0x4945_4e44;

pub const CHUNK_ACTL: u32 = 0x6163_544c;

pub const CHUNK_FCTL: u32 = 0x6663_544c;

pub const CHUNK_FDAT: u32 = 0x6664_4154;

/// The length of the data of the chunk at `i`.
pub open spec fn chunk_length(b: Seq<u8>, i: int) -> int {
    be_u32(b, i) as int
}

/// The name of the chunk at `i`.
pub open spec fn chunk_name(b: Seq<u8>, i: int) -> u32 {
    be_u32(b, i + 4)
}

/// Whether the file holds all of the data of the chunk at `i`.
pub open spec fn chunk_complete(b: Seq<u8>, i: int) -> bool {
    i + 8 + chunk_length(b, i) <= b.len()
}

/// The index after the chunk at `i`: length and name come before the data, a
/// checksum after it.
pub open spec fn after_chunk(b: Seq<u8>, i: int) -> int {
    i + 12 + chunk_length(b, i)
}

/// The index of the header, looked for from `i` on: the first chunk that is not
/// empty. Only empty header chunks may come before it.
pub open spec fn header_at(b: Seq<u8>, i: int) -> Option<int>
    decreases b.len() - i,
{
    if i < 0 || i + 8 > b.len() || chunk_name(b, i) != CHUNK_IHDR {
        None
    } else if chunk_length(b, i) == 0 {
        if i + 12 <= b.len() {
            header_at(b, i + 12)
        } else {
            None
        }
    } else if chunk_length(b, i) >= 13 && chunk_complete(b, i) {
        Some(i)
    } else {
        None
    }
}

/// The width in the header at `h`.
pub open spec fn header_width(b: Seq<u8>, h: int) -> int {
    be_u32(b, h + 8) as int
}

/// The height in the header at `h`.
pub open spec fn header_height(b: Seq<u8>, h: int) -> int {
    be_u32(b, h + 12) as int
}

/// Whether the pixels of the image fit in memory, at four bytes each, and the
/// bits of an interlaced image can be numbered.
pub open spec fn size_fits(b: Seq<u8>, h: int) -> bool {
    let pixels = header_width(b, h) * header_height(b, h);
    &&& 4 * pixels <= isize::MAX
    &&& b[h + 20] != 0 ==> 32 * pixels <= usize::MAX
}

/// Whether the chunk at `i` is one that the decoder can take in: a palette in
/// use has whole entries, at most 256 of them; the frames of an animation can
/// be counted, and so can the chunks that they are made of.
pub open spec fn chunk_fits(b: Seq<u8>, i: int, indexed: bool) -> bool {
    let n = chunk_length(b, i);
    let name = chunk_name(b, i);
    chunk_complete(b, i) ==> {
        &&& indexed && name == CHUNK_PLTE ==> n % 3 == 0 && n <= 768
        &&& name == CHUNK_ACTL && n >= 8 ==> be_u32(b, i + 8) < usize::MAX
        &&& name == CHUNK_FCTL && n > 0 ==> b.len() < 0x10_0000_0000
    }
}

/// Whether the chunks from `i` up to the image data are ones that the decoder
/// can take in.
pub open spec fn chunks_fit(b: Seq<u8>, i: int, indexed: bool) -> bool
    decreases b.len() - i,
{
    if i < 0 || i + 8 > b.len() {
        true
    } else if chunk_name(b, i) == CHUNK_IDAT || chunk_name(b, i) == CHUNK_FDAT || chunk_name(b, i)
        == CHUNK_IEND {
        true
    } else {
        chunk_fits(b, i, indexed) && (after_chunk(b, i) <= b.len() ==> chunks_fit(
            b,
            after_chunk(b, i),
            indexed,
        ))
    }
}

/// Whether a file is one that the decoder reads or refuses: the image fits in
/// memory, and so does what comes before its data. Files that are no PNG are
/// refused.
pub open spec fn png_decodable(b: Seq<u8>) -> bool {
    is_png(b) ==> match header_at(b, 8) {
        None => true,
        Some(h) => size_fits(b, h) && chunks_fit(b, after_chunk(b, h), b[h + 17] == 3),
    }
}

/// The index of the header, looked for from the first chunk on.
fn find_header(b: &[u8]) -> (r: Option<usize>)
    ensures
        r is Some == header_at(b@, 8) is Some,
        r matches Some(h) ==> header_at(b@, 8) == Some(h as int) && 8 <= h && h + 21 <= b@.len()
            && chunk_length(b@, h as int) >= 13 && chunk_complete(b@, h as int),
{
    let n: usize = b.len();
    let mut i: usize = 8;
    while i <= n && n - i >= 8
        invariant
            n == b.len(),
            8 <= i,
            header_at(b@, 8) == header_at(b@, i as int),
        decreases n - i,
    {
        if read_be_u32(b, i + 4) != CHUNK_IHDR {
            return None;
        }
        let length: u32 = read_be_u32(b, i);
        if length == 0 {
            if n - i < 12 {
                return None;
            }
            i += 12;
        } else if length >= 13 && length as u64 <= (n - i - 8) as u64 {
            return Some(i);
        } else {
            return None;
        }
    }
    None
}

/// Whether the chunk at `i` is one that the decoder can take in.
fn check_chunk(b: &[u8], i: usize, indexed: bool) -> (r: bool)
    requires
        i + 8 <= b@.len(),
    ensures
        r == chunk_fits(b@, i as int, indexed),
{
    let n: usize = b.len();
    let length: u32 = read_be_u32(b, i);
    let name: u32 = read_be_u32(b, i + 4);
    if length as u64 > (n - i - 8) as u64 {
        return true;
    }
    if indexed && name == CHUNK_PLTE && (length % 3 != 0 || length > 768) {
        return false;
    }
    if name == CHUNK_ACTL && length >= 8 {
        if read_be_u32(b, i + 8) as u64 >= usize::MAX as u64 {
            return false;
        }
    }
    !(name == CHUNK_FCTL && length > 0 && n as u64 >= 0x10_0000_0000)
}

/// Whether the chunks from `i` up to the image data are ones that the decoder
/// can take in.
fn check_chunks(b: &[u8], i: usize, indexed: bool) -> (r: bool)
    requires
        i <= b@.len(),
    ensures
        r == chunks_fit(b@, i as int, indexed),
{
    let n: usize = b.len();
    let mut k: usize = i;
    while n - k >= 8
        invariant
            n == b.len(),
            k <= n,
            chunks_fit(b@, i as int, indexed) == chunks_fit(b@, k as int, indexed),
        decreases n - k,
    {
        let length: u32 = read_be_u32(b, k);
        let name: u32 = read_be_u32(b, k + 4);
        if name == CHUNK_IDAT || name == CHUNK_FDAT || name == CHUNK_IEND {
            return true;
        }
        if !check_chunk(b, k, indexed) {
            return false;
        }
        if length as u64 + 12 > (n - k) as u64 {
            return true;
        }
        k += 12 + length as usize;
    }
    true
}

/// Whether a file is one that the decoder reads or refuses: the image fits in
/// memory, and so does what comes before its data.
pub fn png_fits(bytes: &[u8]) -> (r: bool)
    ensures
        r == png_decodable(bytes@),
{
    if !looks_like_png(bytes) {
        return true;
    }
    let h: usize = match find_header(bytes) {
        Some(h) => h,
        None => {
            return true;
        },
    };
    assert(h + 21 <= bytes.len());
    let width: u32 = read_be_u32(bytes, h + 8);
    let height: u32 = read_be_u32(bytes, h + 12);
    assert(0 <= width * height <= 0xffff_ffff * 0xffff_ffff) by (nonlinear_arith)
        requires
            0 <= width <= 0xffff_ffff,
            0 <= height <= 0xffff_ffff,
    ;
    let pixels: u128 = width as u128 * height as u128;
    if 4 * pixels > isize::MAX as u128 {
        return false;
    }
    if bytes[h + 20] != 0 && 32 * pixels > usize::MAX as u128 {
        return false;
    }
    let length: u32 = read_be_u32(bytes, h);
    if length as u64 + 12 > (bytes.len() - h) as u64 {
        assert(chunks_fit(bytes@, after_chunk(bytes@, h as int), bytes@[h + 17] == 3));
        return true;
    }
    check_chunks(bytes, h + 12 + length as usize, bytes[h + 17] == 3)
}

// ---------------------------------------------------------------------
// Decoding and encoding.
// ---------------------------------------------------------------------
/// The image that the `png` crate reads out of a file, palettes and
/// transparency expanded and 16-bit channels narrowed: its width, its height,
/// its channels, whether those are one byte wide, and the pixels.
pub uninterp spec fn png_frame(bytes: Seq<u8>) -> Option<(u32, u32, PixelKind, bool, Seq<u8>)>;

/// `png::Decoder` with the transformations `EXPAND` and `STRIP_16`, up to its
/// first frame. What it makes of a file is left to the name `png_frame`, which
/// is `None` where the decoder reports an error. It panics on a palette with a
/// broken entry or with more than 256 entries, and where a size or a count is
/// beyond what the machine can number; `png_decodable` leaves those files out.
#[verifier::external_body]
pub(crate) fn decode_png(bytes: &[u8]) -> (r: Option<Frame>)
    requires
        png_decodable(bytes@),
    ensures
        r is Some == png_frame(bytes@) is Some,
        r matches Some(f) ==> png_frame(bytes@) == Some(f@),
{
    let mut decoder = png::Decoder::new(bytes);
    decoder.set_transformations(png::Transformations::EXPAND | png::Transformations::STRIP_16);
    let mut reader = decoder.read_info().ok()?;
    let mut pixels = vec![0u8; reader.output_buffer_size()];
    let info = reader.next_frame(&mut pixels).ok()?;
    pixels.truncate(info.buffer_size());
    let eight_bit = info.bit_depth == png::BitDepth::Eight;
    let kind = match info.color_type {
        png::ColorType::Grayscale => PixelKind::Gray,
        png::ColorType::GrayscaleAlpha => PixelKind::GrayAlpha,
        png::ColorType::Rgb => PixelKind::Rgb,
        png::ColorType::Rgba => PixelKind::Rgba,
        png::ColorType::Indexed => PixelKind::Indexed,
    };
    Some(Frame { width: info.width, height: info.height, kind, eight_bit, pixels })
}

/// The longest row, in bytes, that the decoder accepts by default (64 MiB).
pub const PNG_ROW_LIMIT: u64 = 0x400_0000;

/// Whether `file` is a PNG file of the image with the given RGBA pixels: it
/// carries the signature, a header with the size and without interlacing, and
/// the image data right behind it; and where a row is within the decoder's
/// limit it decodes to those pixels.
pub open spec fn png_holds(file: Seq<u8>, width: u32, height: u32, rgba: Seq<u8>) -> bool {
    &&& is_png(file)
    &&& file.len() >= 41
    &&& chunk_length(file, 8) == 13
    &&& chunk_name(file, 8) == CHUNK_IHDR
    &&& header_width(file, 8) == width
    &&& header_height(file, 8) == height
    &&& file[25] == 6
    &&& file[28] == 0
    &&& chunk_name(file, 33) == CHUNK_IDAT
    &&& 4 * width <= PNG_ROW_LIMIT ==> png_frame(file) == Some(
        (width, height, PixelKind::Rgba, true, rgba),
    )
}

/// The file that the `png` crate writes for the RGBA pixels of an image.
pub uninterp spec fn png_file(rgba: Seq<u8>, width: u32, height: u32) -> Seq<u8>;

/// `png::Encoder` for 8-bit RGBA, written to memory. It fails only on an empty
/// image or on pixels of another length. The file starts with the PNG
/// signature and a header that holds the size, the image data follows, and
/// `decode_png` reads the pixels back. How the pixels are compressed is left to
/// the name `png_file`: the same image gives the same file.
#[verifier::external_body]
pub(crate) fn encode_png(rgba: &[u8], width: u32, height: u32) -> (r: Option<Vec<u8>>)
    requires
        0 < width,
        0 < height,
        rgba@.len() == 4 * width * height,
    ensures
        r is Some,
        r->0@ == png_file(rgba@, width, height),
        png_holds(r->0@, width, height, rgba@),
{
    let mut out: Vec<u8> = Vec::new();
    let mut enc = png::Encoder::new(&mut out, width, height);
    enc.set_color(png::ColorType::Rgba);
    enc.set_depth(png::BitDepth::Eight);
    let mut writer = enc.write_header().ok()?;
    writer.write_image_data(rgba).ok()?;
    drop(writer);
    Some(out)
}

/// The file of an image that fits in memory is one that the decoder takes.
pub proof fn law_png_of_image_fits(file: Seq<u8>, width: u32, height: u32, rgba: Seq<u8>)
    requires
        png_holds(file, width, height, rgba),
        4 * (width * height) <= isize::MAX,
    ensures
        png_decodable(file),
{
    assert(header_at(file, 8) == Some(8int));
    assert(after_chunk(file, 8) == 33);
    assert(chunks_fit(file, 33, false));
}

/// PNG files start with eight bytes of their own, and nothing else does.
pub proof fn law_png_signature(b: Seq<u8>)
    ensures
        is_png(b) == (b.len() >= 8 && b[0] == 137 && b[1] == 80 && b[2] == 78 && b[3] == 71 && b[4]
            == 13 && b[5] == 10 && b[6] == 26 && b[7] == 10),
{
    if b.len() >= 8 {
        let t = b.take(8);
        let sig = png_signature();
        assert(t[0] == b[0] && t[1] == b[1] && t[2] == b[2] && t[3] == b[3]);
        assert(t[4] == b[4] && t[5] == b[5] && t[6] == b[6] && t[7] == b[7]);
        if b[0] == 137 && b[1] == 80 && b[2] == 78 && b[3] == 71 && b[4] == 13 && b[5] == 10 && b[6]
            == 26 && b[7] == 10 {
            assert(t =~= sig);
        }
    }
}

/// What decoding needs of a file, in the usual case of a header in front: a
/// picture that fits in memory at four bytes to the pixel, and at 32 where it
/// is interlaced. What is no PNG file, or ends within its header, is always
/// fine, for it is refused before anything is made of it.
pub proof fn law_png_decodable(b: Seq<u8>, width: int, height: int)
    requires
        b.len() >= 33,
        b[8] == 0 && b[9] == 0 && b[10] == 0 && b[11] == 13,
        b[12] == 73 && b[13] == 72 && b[14] == 68 && b[15] == 82,
        b[16] * 0x100_0000 + b[17] * 0x1_0000 + b[18] * 0x100 + b[19] == width,
        b[20] * 0x100_0000 + b[21] * 0x1_0000 + b[22] * 0x100 + b[23] == height,
    ensures
        !is_png(b) ==> png_decodable(b),
        is_png(b) && 4 * (width * height) > isize::MAX ==> !png_decodable(b),
        is_png(b) && b[28] != 0 && 32 * (width * height) > usize::MAX ==> !png_decodable(b),
        is_png(b) && 4 * (width * height) <= isize::MAX && (b[28] == 0 || 32 * (width * height)
            <= usize::MAX) && b.len() >= 41 && b[37] == 73 && b[38] == 68 && b[39] == 65 && b[40]
            == 84 ==> png_decodable(b),
{
    assert(chunk_length(b, 8) == 13);
    assert(chunk_name(b, 8) == CHUNK_IHDR);
    assert(header_at(b, 8) == Some(8int));
    assert(header_width(b, 8) == width);
    assert(header_height(b, 8) == height);
    assert(after_chunk(b, 8) == 33);
}

/// What decoding needs of the chunks behind the header, up to the data: whole
/// colours in a palette that is used, at most 256 of them, and counts and sizes
/// of animations that can be added to. A chunk that is cut off needs nothing.
pub proof fn law_png_chunks(b: Seq<u8>, i: int, indexed: bool, n: int, name: int)
    requires
        0 <= i,
        i + 8 <= b.len(),
        n == b[i] * 0x100_0000 + b[i + 1] * 0x1_0000 + b[i + 2] * 0x100 + b[i + 3],
        name == b[i + 4] * 0x100_0000 + b[i + 5] * 0x1_0000 + b[i + 6] * 0x100 + b[i + 7],
    ensures
        i + 8 + n > b.len() ==> chunk_fits(b, i, indexed),
        i + 8 + n <= b.len() && indexed && name == 0x504c_5445 ==> chunk_fits(b, i, indexed) == (n % 3
            == 0 && n <= 768),
        i + 8 + n <= b.len() && name == 0x504c_5445 && !indexed ==> chunk_fits(b, i, indexed),
        i + 8 + n <= b.len() && name == 0x6163_544c ==> chunk_fits(b, i, indexed) == (n < 8 || b[i
            + 8] * 0x100_0000 + b[i + 9] * 0x1_0000 + b[i + 10] * 0x100 + b[i + 11] < usize::MAX),
        i + 8 + n <= b.len() && name == 0x6663_544c ==> chunk_fits(b, i, indexed) == (n == 0
            || b.len() < 0x10_0000_0000),
        name != 0x504c_5445 && name != 0x6163_544c && name != 0x6663_544c ==> chunk_fits(
            b,
            i,
            indexed,
        ),
        name == 0x4944_4154 || name == 0x6664_4154 || name == 0x4945_4e44 ==> chunks_fit(
            b,
            i,
            indexed,
        ),
        name != 0x4944_4154 && name != 0x6664_4154 && name != 0x4945_4e44 ==> chunks_fit(
            b,
            i,
            indexed,
        ) == (chunk_fits(b, i, indexed) && (i + 12 + n <= b.len() ==> chunks_fit(
            b,
            i + 12 + n,
            indexed,
        ))),
{
}

} // verus!
