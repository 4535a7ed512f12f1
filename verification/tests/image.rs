use clippet::bytes::{push_le16, push_le32, read_be_u32, read_i32, read_u16, read_u32};
use clippet::dib::{decode_dib_to_bgra, decode_to_bgra, dib_to_png, dib_to_rgba, frame_to_bgra, frame_to_dib, png_to_dib, swap_channels};
use clippet::png_io::{looks_like_png, png_fits, Frame, PixelKind};
use clippet::thumb::{scale, thumb_png, thumb_size};

fn header(w: i32, h: i32, bits: u16, compression: u32) -> Vec<u8> {
    let mut out = Vec::new();
    push_le32(&mut out, 40);
    push_le32(&mut out, w as u32);
    push_le32(&mut out, h as u32);
    push_le16(&mut out, 1);
    push_le16(&mut out, bits);
    push_le32(&mut out, compression);
    for _ in 0..5 {
        push_le32(&mut out, 0);
    }
    out
}

#[test]
fn numbers_in_bytes() {
    let b = [1u8, 2, 3, 0x84];
    assert_eq!(read_u16(&b, 0), u16::from_le_bytes([1, 2]));
    assert_eq!(read_u32(&b, 0), u32::from_le_bytes(b));
    assert_eq!(read_i32(&b, 0), i32::from_le_bytes(b));
    assert_eq!(read_be_u32(&b, 0), u32::from_be_bytes(b));
}

#[test]
fn bottom_up_24_bit_bitmap() {
    // Two by two, rows padded to eight bytes, bottom row first.
    let mut dib = header(2, 2, 24, 0);
    dib.extend_from_slice(&[1, 2, 3, 4, 5, 6, 0, 0]);
    dib.extend_from_slice(&[7, 8, 9, 10, 11, 12, 0, 0]);
    let (px, w, h) = dib_to_rgba(&dib).unwrap();
    assert_eq!((w, h), (2, 2));
    assert_eq!(px, vec![9, 8, 7, 255, 12, 11, 10, 255, 3, 2, 1, 255, 6, 5, 4, 255]);
}

#[test]
fn top_down_32_bit_bitmap_is_opaque() {
    let mut dib = header(1, -2, 32, 0);
    dib.extend_from_slice(&[1, 2, 3, 0, 4, 5, 6, 9]);
    let (px, w, h) = dib_to_rgba(&dib).unwrap();
    assert_eq!((w, h), (1, 2));
    assert_eq!(px, vec![3, 2, 1, 255, 6, 5, 4, 255]);
}

#[test]
fn other_bitmaps_are_not_converted() {
    let ok = header(1, 1, 32, 0);
    assert!(dib_to_png(&ok[..39]).is_none());
    assert!(dib_to_png(&ok).is_none());
    for (w, h, bits, comp) in [(0, 1, 32, 0), (-1, 1, 32, 0), (1, 0, 32, 0), (1, 1, 16, 0), (1, 1, 32, 3)] {
        let mut d = header(w, h, bits, comp);
        d.extend_from_slice(&[0; 64]);
        assert!(dib_to_png(&d).is_none());
    }
    let mut planes = header(1, 1, 32, 0);
    planes[12] = 2;
    planes.extend_from_slice(&[0; 4]);
    assert!(dib_to_png(&planes).is_none());
    let mut short_header = header(1, 1, 32, 0);
    short_header[0] = 39;
    short_header.extend_from_slice(&[0; 4]);
    assert!(dib_to_png(&short_header).is_none());
    // A size whose pixels cannot exist.
    assert!(dib_to_png(&header(i32::MAX, i32::MIN, 32, 0)).is_none());
}

#[test]
fn bitmap_to_png_and_back_keeps_the_pixels() {
    let mut dib = header(3, 2, 24, 0);
    for i in 0..24u8 {
        dib.push(i * 9);
    }
    let png = dib_to_png(&dib).unwrap();
    assert!(looks_like_png(&png));
    assert_eq!(read_be_u32(&png, 16), 3);
    assert_eq!(read_be_u32(&png, 20), 2);
    assert!(png_fits(&png));
    let back = png_to_dib(&png).unwrap();
    assert_eq!(&back[..4], &[40, 0, 0, 0]);
    assert_eq!(read_i32(&back, 4), 3);
    assert_eq!(read_i32(&back, 8), -2);
    assert_eq!(read_u16(&back, 14), 32);
    assert_eq!(read_u32(&back, 20), 24);
    assert_eq!(dib_to_rgba(&back).unwrap(), dib_to_rgba(&dib).unwrap());
}

#[test]
fn broken_png_is_not_decoded() {
    assert!(png_to_dib(b"").is_none());
    assert!(png_to_dib(&[0x89, 0x50, 0x4e, 0x47, 0x0d, 0x0a, 0x1a, 0x0a, 0, 0]).is_none());
    assert!(!looks_like_png(b"GIF89a.."));
    assert!(!looks_like_png(&[0x89, 0x50]));
}

const SIGNATURE: [u8; 8] = [0x89, 0x50, 0x4e, 0x47, 0x0d, 0x0a, 0x1a, 0x0a];

/// A chunk without its checksum worked out.
fn chunk(name: &[u8; 4], data: &[u8]) -> Vec<u8> {
    let mut out = (data.len() as u32).to_be_bytes().to_vec();
    out.extend_from_slice(name);
    out.extend_from_slice(data);
    out.extend_from_slice(&[0; 4]);
    out
}

fn image_header(w: u32, h: u32, color: u8, interlaced: u8) -> Vec<u8> {
    let mut data = w.to_be_bytes().to_vec();
    data.extend_from_slice(&h.to_be_bytes());
    data.extend_from_slice(&[8, color, 0, 0, interlaced]);
    chunk(b"IHDR", &data)
}

fn file_of(chunks: &[Vec<u8>]) -> Vec<u8> {
    let mut out = SIGNATURE.to_vec();
    for c in chunks {
        out.extend_from_slice(c);
    }
    out
}

#[test]
fn huge_png_does_not_fit() {
    assert!(png_fits(&file_of(&[image_header(70000, 70000, 6, 0)])));
    assert!(!png_fits(&file_of(&[image_header(u32::MAX, u32::MAX, 6, 0)])));
    // What is no PNG, or has no header, is refused without a look at its size.
    assert!(png_fits(&[0xff; 64]));
    assert!(png_fits(&file_of(&[chunk(b"IHDR", &[0xff; 12])])));
    assert!(png_fits(&file_of(&[chunk(b"gAMA", &[0xff; 20])])));
    // The header is the first one that is not empty.
    let empty = chunk(b"IHDR", &[]);
    let huge = image_header(u32::MAX, u32::MAX, 6, 0);
    assert!(!png_fits(&file_of(&[empty.clone(), empty.clone(), huge])));
    assert!(png_fits(&file_of(&[empty.clone(), empty.clone(), image_header(1, 1, 6, 0)])));
    assert!(png_fits(&file_of(&[empty.clone(), empty])));
    // The bits of an interlaced image have numbers too.
    let deep = 0x4000_0000;
    assert!(png_fits(&file_of(&[image_header(deep, deep, 6, 0)])));
    assert!(!png_fits(&file_of(&[image_header(deep, deep, 6, 1)])));
}

#[test]
fn broken_palettes_do_not_fit() {
    let with = |color: u8, n: usize| {
        let data = chunk(b"IDAT", &[1, 2, 3]);
        png_fits(&file_of(&[image_header(1, 1, color, 0), chunk(b"gAMA", &[0; 4]), chunk(b"PLTE", &vec![0; n]), data]))
    };
    assert!(with(3, 0));
    assert!(with(3, 3));
    assert!(with(3, 768));
    assert!(!with(3, 1));
    assert!(!with(3, 767));
    assert!(!with(3, 771));
    // A palette that is not used is not looked at.
    assert!(with(2, 1));
    // Nor is one behind the image data, or one that is cut off.
    let late = [image_header(1, 1, 3, 0), chunk(b"IDAT", &[]), chunk(b"PLTE", &[0])];
    assert!(png_fits(&file_of(&late)));
    let mut cut = file_of(&[image_header(1, 1, 3, 0), chunk(b"PLTE", &[0; 5])]);
    cut.truncate(cut.len() - 5);
    assert!(png_fits(&cut));
}

#[test]
fn palettes_are_expanded() {
    let mut file = Vec::new();
    {
        let mut enc = png::Encoder::new(&mut file, 2, 1);
        enc.set_color(png::ColorType::Indexed);
        enc.set_depth(png::BitDepth::Eight);
        enc.set_palette(vec![1, 2, 3, 4, 5, 6]);
        let mut w = enc.write_header().unwrap();
        w.write_image_data(&[1, 0]).unwrap();
    }
    assert!(png_fits(&file));
    assert_eq!(decode_to_bgra(&file), Some((vec![6, 5, 4, 255, 3, 2, 1, 255], 2, 1)));
}

#[test]
fn empty_headers_are_skipped() {
    let dib = [header(1, 1, 24, 0), vec![1, 2, 3, 0]].concat();
    let file = dib_to_png(&dib).unwrap();
    let mut padded = file[..8].to_vec();
    for _ in 0..2 {
        padded.extend_from_slice(&[0, 0, 0, 0, 0x49, 0x48, 0x44, 0x52, 0xa8, 0xa1, 0xae, 0x0a]);
    }
    padded.extend_from_slice(&file[8..]);
    assert!(png_fits(&padded));
    assert_eq!(png_to_dib(&padded), png_to_dib(&file));
    assert!(png_to_dib(&file).is_some());
}

#[test]
fn frames_of_every_kind() {
    let frame = |kind, pixels: Vec<u8>| Frame { width: 1, height: 1, kind, eight_bit: true, pixels };
    let body = |f: &Frame| frame_to_dib(f).map(|d| d[40..].to_vec());
    assert_eq!(body(&frame(PixelKind::Gray, vec![7])), Some(vec![7, 7, 7, 255]));
    assert_eq!(body(&frame(PixelKind::GrayAlpha, vec![7, 8])), Some(vec![7, 7, 7, 8]));
    assert_eq!(body(&frame(PixelKind::Rgb, vec![1, 2, 3])), Some(vec![3, 2, 1, 255]));
    assert_eq!(body(&frame(PixelKind::Rgba, vec![1, 2, 3, 4])), Some(vec![3, 2, 1, 4]));
    assert_eq!(body(&frame(PixelKind::Indexed, vec![1])), None);
    let mut deep = frame(PixelKind::Gray, vec![7]);
    deep.eight_bit = false;
    assert_eq!(body(&deep), None);
    let mut empty = frame(PixelKind::Gray, vec![]);
    empty.width = 0;
    assert_eq!(body(&empty), None);
    assert_eq!(frame_to_bgra(&frame(PixelKind::Rgba, vec![1, 2, 3, 4])), Some((vec![3, 2, 1, 4], 1, 1)));
    let mut wide = frame(PixelKind::Gray, vec![7]);
    wide.width = 0x8000_0000;
    assert_eq!(frame_to_bgra(&wide), None);
}

#[test]
fn gray_png_is_expanded() {
    let mut file = Vec::new();
    {
        let mut enc = png::Encoder::new(&mut file, 2, 1);
        enc.set_color(png::ColorType::Grayscale);
        enc.set_depth(png::BitDepth::Sixteen);
        let mut w = enc.write_header().unwrap();
        w.write_image_data(&[0x12, 0x34, 0xff, 0x00]).unwrap();
    }
    let dib = png_to_dib(&file).unwrap();
    assert_eq!(dib[40..].to_vec(), vec![0x12, 0x12, 0x12, 255, 0xff, 0xff, 0xff, 255]);
    assert_eq!(decode_to_bgra(&file), Some((dib[40..].to_vec(), 2, 1)));
}

#[test]
fn masked_bitmap_is_read() {
    // 5-6-5 like masks in 32 bits, behind a header of 40 bytes.
    let mut dib = header(1, 1, 32, 3);
    push_le32(&mut dib, 0x00f8_0000);
    push_le32(&mut dib, 0x0000_ff00);
    push_le32(&mut dib, 0x0000_001f);
    push_le32(&mut dib, 0x00f8_801f);
    assert!(dib_to_png(&dib).is_none());
    assert_eq!(decode_dib_to_bgra(&dib), Some((vec![255, 0x80, 255, 255], 1, 1)));
}

#[test]
fn masked_bitmap_with_long_header() {
    // A header of 124 bytes holds the masks itself.
    let mut dib = header(1, 1, 32, 3);
    dib[0] = 124;
    push_le32(&mut dib, 0x0000_00ff);
    push_le32(&mut dib, 0x0000_ff00);
    push_le32(&mut dib, 0);
    while dib.len() < 124 {
        dib.push(0);
    }
    dib.extend_from_slice(&[10, 20, 30, 40]);
    assert_eq!(decode_dib_to_bgra(&dib), Some((vec![0, 20, 10, 255], 1, 1)));
    assert_eq!(decode_dib_to_bgra(&dib[..127]), None);
    assert_eq!(decode_dib_to_bgra(b"short"), None);
}

#[test]
fn plain_bitmap_as_bgra() {
    let mut dib = header(1, 1, 24, 0);
    dib.extend_from_slice(&[1, 2, 3, 0]);
    assert_eq!(decode_to_bgra(&dib), Some((vec![1, 2, 3, 255], 1, 1)));
    assert_eq!(swap_channels(&[1, 2, 3, 4, 5, 6, 7, 8]), vec![3, 2, 1, 4, 7, 6, 5, 8]);
}

#[test]
fn thumbnails_keep_the_proportions() {
    assert_eq!(thumb_size(10, 20), (10, 20));
    assert_eq!(thumb_size(96, 96), (96, 96));
    assert_eq!(thumb_size(192, 96), (96, 48));
    assert_eq!(thumb_size(100, 1000), (9, 96));
    assert_eq!(thumb_size(1, 1000), (1, 96));
    assert_eq!(thumb_size(u32::MAX, u32::MAX), (96, 96));
}

#[test]
fn scaling_takes_pixels_in_proportion() {
    let px: Vec<u8> = (0..16).collect();
    assert_eq!(scale(&px, 4, 1, 2, 1), vec![0, 1, 2, 3, 8, 9, 10, 11]);
    assert_eq!(scale(&px, 4, 1, 4, 1), px);
}

#[test]
fn thumbnail_file_holds_the_scaled_pixels() {
    let px: Vec<u8> = (0..200 * 4).map(|i| (i / 4) as u8).collect();
    let file = thumb_png(&px, 200, 1).unwrap();
    let (bgra, w, h) = decode_to_bgra(&file).unwrap();
    assert_eq!((w, h), (96, 1));
    assert_eq!(bgra[..4], [0, 0, 0, 0]);
    assert_eq!(bgra[4 * 48], 100);
}
