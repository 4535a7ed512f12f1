use clippet::capture::{ansi_text_item, choose_source, classify_text, describe_payload, fallback, file_name, files_item, image_item, payload_item, sheet_text_item, source_format, table_size, unicode_text_item, Source};
use clippet::dib::decode_to_bgra;
use clippet::hash::fnv1a_64;
use clippet::history::push_item;
use clippet::item::{ItemType, RegFormats};
use clippet::paste::{build_hdrop_blob, clipboard_payload, paste_strokes, payload_with_text, split_paths};
use clippet::png_io::looks_like_png;

const REG: RegFormats = RegFormats { rtf: 0xc001, html: 0xc002, sheet: 0xc003 };

fn names(list: &[&str]) -> Vec<String> {
    list.iter().map(|s| s.to_string()).collect()
}

fn bitmap() -> Vec<u8> {
    let mut dib = vec![0u8; 40];
    dib[0] = 40;
    dib[4] = 2;
    dib[8] = 1;
    dib[12] = 1;
    dib[14] = 32;
    dib.extend_from_slice(&[1, 2, 3, 0, 4, 5, 6, 0]);
    dib
}

#[test]
fn richest_format_is_chosen() {
    let all = vec![1, 2, 8, 13, 15, 0xc001, 0xc002, 0xc003];
    assert_eq!(choose_source(&all, &REG), Some(Source::Files));
    let without = |drop: &[u32]| -> Vec<u32> { all.iter().copied().filter(|f| !drop.contains(f)).collect() };
    assert_eq!(choose_source(&without(&[15]), &REG), Some(Source::SheetText));
    assert_eq!(choose_source(&without(&[15, 1]), &REG), Some(Source::SheetRaw));
    assert_eq!(choose_source(&without(&[15, 0xc003]), &REG), Some(Source::Rtf));
    assert_eq!(choose_source(&without(&[15, 0xc003, 0xc001]), &REG), Some(Source::Html));
    assert_eq!(choose_source(&vec![1, 8, 13], &REG), Some(Source::Image));
    assert_eq!(choose_source(&vec![2], &REG), Some(Source::Image));
    assert_eq!(choose_source(&vec![1, 13], &REG), Some(Source::UnicodeText));
    assert_eq!(choose_source(&vec![1], &REG), Some(Source::AnsiText));
    assert_eq!(choose_source(&vec![7], &REG), None);
    // A format that was not registered is never there.
    let none = RegFormats { rtf: 0, html: 0, sheet: 0 };
    assert_eq!(choose_source(&vec![0, 1], &none), Some(Source::AnsiText));
}

#[test]
fn formats_and_fallbacks() {
    assert_eq!(fallback(Source::SheetText), Some(Source::SheetRaw));
    assert_eq!(fallback(Source::SheetRaw), None);
    assert_eq!(fallback(Source::Files), None);
    assert_eq!(source_format(Source::Files, &REG), 15);
    assert_eq!(source_format(Source::SheetText, &REG), 1);
    assert_eq!(source_format(Source::SheetRaw, &REG), 0xc003);
    assert_eq!(source_format(Source::Rtf, &REG), 0xc001);
    assert_eq!(source_format(Source::Html, &REG), 0xc002);
    assert_eq!(source_format(Source::Image, &REG), 8);
    assert_eq!(source_format(Source::UnicodeText, &REG), 13);
    assert_eq!(source_format(Source::AnsiText, &REG), 1);
}

#[test]
fn one_file_shows_its_name() {
    let item = files_item(3, 77, &names(&["C:\\dir\\report.txt", ""])).unwrap();
    assert_eq!(item.kind, ItemType::File);
    assert_eq!(item.id, 3);
    assert_eq!(item.timestamp, 77);
    assert!(!item.pinned);
    assert_eq!(item.raw, b"C:\\dir\\report.txt");
    assert_eq!(item.preview, "report.txt");
    assert_eq!(item.content_hash, fnv1a_64(b"C:\\dir\\report.txt"));
}

#[test]
fn several_files_show_the_first() {
    let item = files_item(3, 77, &names(&["/a/b", "c", "d"])).unwrap();
    assert_eq!(item.raw, b"/a/b\nc\nd");
    assert_eq!(item.preview, "b + 2 more");
    assert!(files_item(3, 77, &names(&["", ""])).is_none());
    assert!(files_item(3, 77, &names(&[])).is_none());
    assert_eq!(file_name("x"), "x");
    assert_eq!(file_name("x\\"), "");
    assert_eq!(file_name("a/b\\c"), "c");
}

#[test]
fn text_from_an_editor_is_code() {
    let title = Some("main.rs - Visual Studio Code".to_string());
    let (kind, preview, lang) = classify_text("\n  let x = 1;\n", &title);
    assert_eq!(kind, ItemType::Code);
    assert_eq!(preview, "let x = 1;");
    assert_eq!(lang.as_deref(), Some("rs"));
    let (kind, preview, lang) = classify_text("a\nb", &Some("Firefox".to_string()));
    assert_eq!(kind, ItemType::Text);
    assert_eq!(preview, "a b");
    assert_eq!(lang, None);
    assert_eq!(classify_text("a", &None).0, ItemType::Text);
}

#[test]
fn unicode_text_ends_at_null() {
    let units: Vec<u16> = "caf\u{e9}\0rest".encode_utf16().collect();
    let item = unicode_text_item(1, 2, &units, &None);
    assert_eq!(item.raw, "caf\u{e9}".as_bytes());
    assert_eq!(item.preview, "caf\u{e9}");
    assert_eq!(item.kind, ItemType::Text);
    assert_eq!(item.content_hash, fnv1a_64("caf\u{e9}".as_bytes()));
}

#[test]
fn ansi_text_keeps_its_bytes() {
    let item = ansi_text_item(1, 2, b"caf\xe9\0rest", &None);
    assert_eq!(item.raw, b"caf\xe9");
    assert_eq!(item.preview, "caf\u{fffd}");
}

#[test]
fn payloads_are_kept_and_described() {
    let rtf = b"{\\rtf1 Hello}".to_vec();
    let item = payload_item(1, 2, ItemType::RichText, "RTF", rtf.clone());
    assert_eq!(item.raw, rtf);
    assert_eq!(item.preview, "Hello");
    let html = payload_item(1, 2, ItemType::Html, "HTML", b"<p>a &amp; b</p>".to_vec());
    assert_eq!(html.preview, "a & b");
    let empty = payload_item(1, 2, ItemType::Html, "HTML", b"<img/>".to_vec());
    assert_eq!(empty.preview, "[HTML 6B]");
    let sheet = payload_item(1, 2, ItemType::Spreadsheet, "Sheet", b"<?xml?>".to_vec());
    assert_eq!(sheet.preview, "<?xml?>");
    assert_eq!(describe_payload(ItemType::RichText, "RTF", "{\\rtf1}", 7), "[RTF 7B]");
}

#[test]
fn tables_show_their_size() {
    let item = sheet_text_item(1, 2, b"a\tb\tc\r\n\r\nd\te\r\n\0junk").unwrap();
    assert_eq!(item.preview, "2 rows x 3 cols");
    assert_eq!(item.raw, b"a\tb\tc\r\n\r\nd\te\r\n");
    assert_eq!(item.kind, ItemType::Spreadsheet);
    assert!(sheet_text_item(1, 2, b"\r\n\n").is_none());
    assert!(sheet_text_item(1, 2, b"").is_none());
    assert_eq!(table_size("x"), (1, 1));
    assert_eq!(table_size("\t"), (1, 2));
}

#[test]
fn images_are_kept_as_png() {
    let dib = bitmap();
    let c = image_item(9, 5, dib.clone());
    assert!(looks_like_png(&c.file));
    assert_eq!(c.item.preview, "[Image 2x1]");
    assert!(c.item.raw.is_empty());
    assert_eq!(c.item.media_file.as_deref(), Some("9.png"));
    assert_eq!(c.item.thumb_file.as_deref(), Some("9_thumb.png"));
    assert_eq!((c.item.media_w, c.item.media_h), (Some(2), Some(1)));
    assert_eq!(c.item.content_hash, fnv1a_64(&c.file));
    assert_eq!(decode_to_bgra(&c.file), decode_to_bgra(&dib));
    // The same bitmap gives the same file, so it repeats the item.
    let again = image_item(10, 6, dib.clone());
    assert_eq!(again.file, c.file);
    let mut hist = Vec::new();
    assert!(push_item(&mut hist, c.item.copy()).is_some());
    assert!(push_item(&mut hist, again.item).is_none());
    assert_eq!(hist.len(), 1);
    assert_eq!(decode_to_bgra(&c.thumb.unwrap()), decode_to_bgra(&dib));
}

#[test]
fn unknown_bitmaps_are_kept_as_they_are() {
    let mut dib = bitmap();
    dib[14] = 16;
    dib[8..12].copy_from_slice(&(-3i32).to_le_bytes());
    let c = image_item(9, 5, dib.clone());
    assert_eq!(c.file, dib);
    assert!(c.thumb.is_none());
    assert_eq!(c.item.thumb_file, None);
    assert_eq!(c.item.media_w, None);
    assert_eq!(c.item.preview, "[Image 2x3]");
    assert_eq!(c.item.content_hash, fnv1a_64(&dib));
    assert_eq!(image_item(9, 5, vec![1, 2]).item.preview, "[Image 0x0]");
    dib[4..8].copy_from_slice(&(-7i32).to_le_bytes());
    assert_eq!(image_item(9, 5, dib).item.preview, "[Image -7x3]");
}

#[test]
fn text_is_pasted_as_utf16() {
    let units: Vec<u16> = "h\u{e9}\u{1f600}".encode_utf16().collect();
    let item = unicode_text_item(1, 2, &units, &None);
    let (format, bytes) = clipboard_payload(&item, &REG, &None).unwrap();
    assert_eq!(format, 13);
    let mut want = Vec::new();
    for u in units.iter().chain(std::iter::once(&0)) {
        want.extend_from_slice(&u.to_le_bytes());
    }
    assert_eq!(bytes, want);
}

#[test]
fn invalid_text_is_replaced_when_pasted() {
    let item = ansi_text_item(1, 2, b"a\xff", &None);
    let (_, bytes) = clipboard_payload(&item, &REG, &None).unwrap();
    assert_eq!(bytes, vec![0x61, 0, 0xfd, 0xff, 0, 0]);
}

#[test]
fn payloads_are_pasted_verbatim() {
    for (kind, format) in [(ItemType::RichText, 0xc001), (ItemType::Html, 0xc002), (ItemType::Spreadsheet, 1)] {
        let item = payload_item(1, 2, kind, "X", b"ab\0\xffc".to_vec());
        assert_eq!(clipboard_payload(&item, &REG, &None), Some((format, b"ab\0\xffc".to_vec())));
    }
}

#[test]
fn files_are_pasted_as_files() {
    let item = files_item(1, 2, &names(&["C:\\a", "b"])).unwrap();
    let (format, bytes) = clipboard_payload(&item, &REG, &None).unwrap();
    assert_eq!(format, 15);
    assert_eq!(bytes[..20].to_vec(), vec![20, 0, 0, 0, 0, 0, 0, 0, 0, 0, 0, 0, 0, 0, 0, 0, 1, 0, 0, 0]);
    let want: Vec<u8> = "C:\\a\0b\0\0".encode_utf16().flat_map(|u| u.to_le_bytes()).collect();
    assert_eq!(bytes[20..].to_vec(), want);
    assert_eq!(build_hdrop_blob(&vec![])[20..].to_vec(), vec![0, 0]);
    assert_eq!(split_paths("\na\n\nb\n"), vec!["a", "b"]);
    assert_eq!(split_paths(""), Vec::<String>::new());
    let mut nothing = item.copy();
    nothing.raw = b"\n".to_vec();
    assert_eq!(clipboard_payload(&nothing, &REG, &None), None);
}

#[test]
fn images_are_pasted_as_bitmaps() {
    let c = image_item(9, 5, bitmap());
    assert_eq!(clipboard_payload(&c.item, &REG, &None), None);
    let (format, dib) = clipboard_payload(&c.item, &REG, &Some(c.file.clone())).unwrap();
    assert_eq!(format, 8);
    assert_eq!(decode_to_bgra(&dib), decode_to_bgra(&bitmap()));
    // A file that is no PNG is a bitmap already.
    assert_eq!(clipboard_payload(&c.item, &REG, &Some(vec![1, 2, 3])), Some((8, vec![1, 2, 3])));
    // So a bitmap that is not converted comes back as it was.
    let mut deep = bitmap();
    deep[14] = 16;
    let kept = image_item(9, 5, deep.clone());
    assert_eq!(clipboard_payload(&kept.item, &REG, &Some(kept.file.clone())), Some((8, deep)));
    // A broken PNG gives nothing.
    let mut broken = c.file.clone();
    broken.truncate(20);
    assert_eq!(clipboard_payload(&c.item, &REG, &Some(broken)), None);
}

#[test]
fn text_can_be_given_with_the_item() {
    let item = payload_item(1, 2, ItemType::Text, "T", b"raw".to_vec());
    assert_eq!(payload_with_text(&item, "A", &REG, &None), Some((13, vec![0x41, 0, 0, 0])));
}

#[test]
fn paste_is_control_v() {
    let keys: Vec<(u16, bool)> = paste_strokes().iter().map(|k| (k.key, k.up)).collect();
    assert_eq!(keys, vec![(0x11, false), (0x56, false), (0x56, true), (0x11, true)]);
}
