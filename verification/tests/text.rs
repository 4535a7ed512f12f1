use clippet::html::{align_char_boundary, cf_html_to_plain, decode_html_entities, parse_cf_html_offset, read_entity, strip_html_tags};
use clippet::preview::{extract_lang_from_title, first_nonempty_line, relative_time, title_is_ide, truncate_preview};
use clippet::rtf::{rtf_text_bytes, rtf_to_plain};
use clippet::text::{find, find_char, line_ranges, parse_u32, push_decimal, push_int, read_leading_digits, read_number, same_text, spells, to_chars, trim_range, white_space};
use clippet::wide::{from_wide, push_wide_bytes, text_before_null, to_wide};

fn chars(s: &str) -> Vec<char> {
    s.chars().collect()
}

#[test]
fn white_space_is_that_of_char() {
    for n in 0..=0x10ffffu32 {
        if let Some(c) = char::from_u32(n) {
            assert_eq!(white_space(c), c.is_whitespace(), "{:x}", n);
        }
    }
}

#[test]
fn trimming_is_that_of_str() {
    for s in ["", "  ", " a b ", "\t\u{3000}x\u{a0}", "x", "\u{200b}x\u{200b}"] {
        let cs = to_chars(s);
        let (lo, hi) = trim_range(&cs);
        let kept: String = cs[lo..hi].iter().collect();
        assert_eq!(kept, s.trim());
    }
}

#[test]
fn lines_are_those_of_str() {
    for s in ["", "a", "a\n", "a\nb", "a\r\nb\r\n", "\n\n", "a\r", "\r\n", "a\n\nb", "a\r\r\nb"] {
        let cs = to_chars(s);
        let got: Vec<String> = line_ranges(&cs)
            .iter()
            .map(|&(lo, hi)| cs[lo..hi].iter().collect())
            .collect();
        let want: Vec<&str> = s.lines().collect();
        assert_eq!(got, want, "{:?}", s);
    }
}

#[test]
fn finds_the_first_occurrence() {
    assert_eq!(find(&chars("abcabc"), &chars("ca")), Some(2));
    assert_eq!(find(&chars("abc"), &chars("")), Some(0));
    assert_eq!(find(&chars("abc"), &chars("abcd")), None);
    assert_eq!(find(&chars("aab"), &chars("ab")), Some(1));
    assert_eq!(find_char(&chars("a;b;"), ';', 2), Some(3));
    assert_eq!(find_char(&chars("a;b"), ';', 2), None);
}

#[test]
fn compares_texts() {
    assert!(spells(&chars("amp"), "amp"));
    assert!(!spells(&chars("amq"), "amp"));
    assert!(!spells(&chars("am"), "amp"));
    assert!(same_text("x", "x"));
    assert!(!same_text("x", "y"));
}

#[test]
fn writes_numbers() {
    let mut s = String::new();
    push_decimal(&mut s, 0);
    push_decimal(&mut s, 1203);
    push_decimal(&mut s, u64::MAX as u128);
    assert_eq!(s, format!("01203{}", u64::MAX));
    let mut t = String::new();
    push_int(&mut t, -12);
    push_int(&mut t, i64::MIN);
    push_int(&mut t, 7);
    assert_eq!(t, format!("-12{}7", i64::MIN));
}

#[test]
fn reads_numbers() {
    assert_eq!(parse_u32(&chars("ff"), 16), Some(255));
    assert_eq!(parse_u32(&chars("+41"), 10), Some(41));
    assert_eq!(parse_u32(&chars("+"), 10), None);
    assert_eq!(parse_u32(&chars(""), 10), None);
    assert_eq!(parse_u32(&chars("-1"), 10), None);
    assert_eq!(parse_u32(&chars("4294967295"), 10), Some(u32::MAX));
    assert_eq!(parse_u32(&chars("4294967296"), 10), None);
    assert_eq!(parse_u32(&chars("1x"), 10), None);
    assert_eq!(read_leading_digits(&chars("a12b"), 1, 10), vec![1, 2]);
    assert_eq!(read_number(&[1, 2, 3], 10), 123);
}

#[test]
fn rtf_text_is_extracted() {
    let doc = "{\\rtf1\\ansi{\\fonttbl{\\f0 Arial;}}{\\colortbl;\\red0;}\\f0\\fs24 Hello \\b world\\b0\\par Next\\tab end}";
    assert_eq!(rtf_to_plain(doc), "Hello world\nNext\tend");
}

#[test]
fn rtf_escapes() {
    assert_eq!(rtf_to_plain("a\\{b\\}c\\\\d\\~e\\-f\\_g"), "a{b}c\\d efg");
    assert_eq!(rtf_to_plain("\\'41\\'e9\\'zz!"), "A!");
    assert_eq!(rtf_to_plain("x\\'4"), "x");
    assert_eq!(rtf_to_plain("a\r\nb"), "ab");
    assert_eq!(rtf_to_plain("end\\"), "end");
}

#[test]
fn rtf_unicode_and_substitutes() {
    assert_eq!(rtf_to_plain("\\u8364?x"), "\u{20ac}x");
    assert_eq!(rtf_to_plain("\\uc0\\u8364 x"), "\u{20ac}x");
    assert_eq!(rtf_to_plain("\\uc2\\u8364??x"), "\u{20ac}x");
    // -10179 is the first half of a surrogate pair, which is no character.
    assert_eq!(rtf_to_plain("\\u-10179?x"), "x");
    assert_eq!(rtf_to_plain("\\u-1?x"), "\u{ffff}x");
    assert_eq!(rtf_to_plain("\\u99999999999?x"), "?x");
}

#[test]
fn rtf_destinations_are_skipped() {
    assert_eq!(rtf_to_plain("a{\\*\\generator x{y}z}b"), "ab");
    assert_eq!(rtf_to_plain("a{\\pict 00ff\\}00}b"), "ab");
    assert_eq!(rtf_to_plain("a{\\pictures x}b"), "axb");
    assert_eq!(rtf_to_plain("a{\\info}b}c"), "abc");
    // Groups and escaped braces inside are part of the destination.
    assert_eq!(rtf_to_plain("{\\fonttbl{\\f0 A\\}ria\\{l;}{\\f1{x}y;}}text"), "text");
    assert_eq!(rtf_to_plain("{\\colortbl;\\red0{{}}}caf\u{e9}"), "caf\u{e9}");
    assert_eq!(rtf_to_plain("{\\fonttbl{\\f0 Arial;}text"), "");
}

#[test]
fn rtf_plain_text_is_kept() {
    assert_eq!(rtf_text_bytes(b"just text, 100%"), b"just text, 100%".to_vec());
}

#[test]
fn tags_are_stripped() {
    assert_eq!(strip_html_tags("<p>Hi <b>you</b></p>"), "Hi you");
    assert_eq!(strip_html_tags("1 > 0 <i"), "1 > 0 ");
    assert_eq!(strip_html_tags("a<b<c>d>e"), "ae");
    assert_eq!(strip_html_tags("no tags"), "no tags");
}

#[test]
fn entities_are_decoded() {
    assert_eq!(decode_html_entities("a &amp; b &lt;c&gt; &quot;d&apos;&nbsp;e"), "a & b <c> \"d' e");
    assert_eq!(decode_html_entities("&#65;&#x42;&#X43;&#+68;"), "ABCD");
    assert_eq!(decode_html_entities("&unknown; &#xd800; &#; & x"), "&unknown; &#xd800; &#; & x");
    assert_eq!(decode_html_entities("&amp;amp;"), "&amp;");
    assert_eq!(decode_html_entities("\u{e9}&lt\u{20ac};"), "\u{e9}&lt\u{20ac};");
    assert_eq!(read_entity(&chars("nbsp")), Some(' '));
    assert_eq!(read_entity(&chars("#x110000")), None);
}

#[test]
fn html_fragment_offsets_are_bytes() {
    let body = "<html><body><!--StartFragment--><b>caf\u{e9} &amp; tea</b><!--EndFragment--></body></html>";
    let head_len = "Version:0.9\r\nStartFragment:0000000000\r\nEndFragment:0000000000\r\n".len();
    let start = head_len + body.find("<b>").unwrap();
    let end = head_len + body.find("<!--End").unwrap();
    let doc = format!("Version:0.9\r\nStartFragment:{:010}\r\nEndFragment:{:010}\r\n{}", start, end, body);
    assert_eq!(cf_html_to_plain(&doc), "caf\u{e9} & tea");
    assert_eq!(parse_cf_html_offset(&doc, "StartFragment:"), Some(start));
    assert_eq!(parse_cf_html_offset("StartFragment:x", "StartFragment:"), None);
    assert_eq!(parse_cf_html_offset("none", "StartFragment:"), None);
    assert_eq!(parse_cf_html_offset("K:99999999999999999999999999", "K:"), None);
}

#[test]
fn html_without_header_starts_at_the_first_tag() {
    assert_eq!(cf_html_to_plain("junk<p>text</p>"), "text");
    assert_eq!(cf_html_to_plain("no markup"), "no markup");
    // Offsets beyond the end or the wrong way round give nothing.
    assert_eq!(cf_html_to_plain("StartFragment:900 EndFragment:5 x"), "");
}

#[test]
fn offsets_are_aligned_to_characters() {
    let s = "a\u{20ac}b";
    assert_eq!(align_char_boundary(s, 0), 0);
    assert_eq!(align_char_boundary(s, 2), 1);
    assert_eq!(align_char_boundary(s, 3), 1);
    assert_eq!(align_char_boundary(s, 4), 4);
    assert_eq!(align_char_boundary(s, 5), 5);
    assert_eq!(cf_html_to_plain("StartFragment:33 EndFragment:37 \u{20ac}x"), "\u{20ac}x");
}

#[test]
fn previews_are_short_single_lines() {
    assert_eq!(truncate_preview("  a\r\nb\tc  ", 80), "a  b c");
    assert_eq!(truncate_preview("abcdef", 3), "abc...");
    assert_eq!(truncate_preview("abc", 3), "abc");
    assert_eq!(truncate_preview("\n\t ", 80), "");
    assert_eq!(truncate_preview("\u{e9}\u{e9}\u{e9}", 2), "\u{e9}\u{e9}...");
    let once = truncate_preview(" x\ny ", 80);
    assert_eq!(truncate_preview(&once, 80), once);
}

#[test]
fn first_line_that_is_not_blank() {
    assert_eq!(first_nonempty_line("\n  \n  fn main() {\n}", 80), "fn main() {");
    assert_eq!(first_nonempty_line("abcdef\nx", 4), "abcd...");
    assert_eq!(first_nonempty_line(" \r\n\t", 80), "");
}

#[test]
fn editors_are_known_by_title() {
    for t in ["main.rs - x - Visual Studio Code", "JetBrains", "a IntelliJ b", "PyCharm", "Rider", "GoLand", "WebStorm", "*x - Notepad++", "Microsoft Visual Studio"] {
        assert!(title_is_ide(t), "{}", t);
    }
    assert!(!title_is_ide("Mozilla Firefox"));
    assert!(!title_is_ide("visual studio code"));
}

#[test]
fn language_hint_of_a_title() {
    assert_eq!(extract_lang_from_title("main.rs - clippet - Visual Studio Code").as_deref(), Some("rs"));
    assert_eq!(extract_lang_from_title("filename.spec.ts - Project").as_deref(), Some("ts"));
    assert_eq!(extract_lang_from_title("A.CPP").as_deref(), Some("cpp"));
    assert_eq!(extract_lang_from_title("Untitled"), None);
    assert_eq!(extract_lang_from_title("x.toolongext"), None);
    assert_eq!(extract_lang_from_title("x."), None);
    assert_eq!(extract_lang_from_title("a.rs b.toolongext").as_deref(), Some("rs"));
    assert_eq!(extract_lang_from_title("a.b_c"), None);
}

#[test]
fn ages() {
    assert_eq!(relative_time(100, 98), "just now");
    assert_eq!(relative_time(100, 200), "just now");
    assert_eq!(relative_time(100, 95), "5s ago");
    assert_eq!(relative_time(159, 100), "59s ago");
    assert_eq!(relative_time(160, 100), "1m ago");
    assert_eq!(relative_time(3699, 100), "59m ago");
    assert_eq!(relative_time(3700, 100), "1h ago");
    assert_eq!(relative_time(86400, 0), "1d ago");
    assert_eq!(relative_time(u64::MAX, 0), format!("{}d ago", u64::MAX / 86400));
}

#[test]
fn utf16_is_that_of_str() {
    for s in ["", "abc", "caf\u{e9}", "\u{1f600}x", "\u{ffff}\u{10ffff}"] {
        let mut want: Vec<u16> = s.encode_utf16().collect();
        assert_eq!(from_wide(&want), s);
        want.push(0);
        assert_eq!(to_wide(s), want);
        assert_eq!(text_before_null(&want), s);
    }
}

#[test]
fn unpaired_surrogates_are_replaced() {
    for u in [vec![0xd800u16], vec![0xdc00], vec![0xd800, 0x41], vec![0xdc00, 0xd800], vec![0xd800, 0xd800, 0xdc00]] {
        assert_eq!(from_wide(&u), String::from_utf16_lossy(&u));
    }
    assert_eq!(text_before_null(&[0x41, 0, 0x42]), "A");
}

#[test]
fn utf16_bytes_are_little_endian() {
    let mut out = vec![9u8];
    push_wide_bytes(&mut out, &[0x1234, 0x00ff]);
    assert_eq!(out, vec![9, 0x34, 0x12, 0xff, 0x00]);
}
