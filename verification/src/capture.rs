//! From clipboard contents to items.

use vstd::prelude::*;
use vstd::utf8::*;

use crate::dib::{decode_dib_to_bgra, dib_to_png};
use crate::dib::{dib_bgra, dib_rgba, four_bytes, header_of, is_plain_dib, png_of_dib, rows_of, swapped};
use crate::hash::fnv1a;
use crate::hash::fnv1a_64;
use crate::html::cf_html_to_plain;
use crate::html::{cf_html_body, without_entities, without_tags};
use crate::item::{ClipItem, ItemType, RegFormats};
use crate::item::{text_of, ItemView};
use crate::item::{CF_BITMAP, CF_DIB, CF_HDROP, CF_TEXT, CF_UNICODETEXT};
use crate::lossy::utf8_text;
use crate::lossy::utf8_lossy;
use crate::png_io::{png_file, png_holds};
use crate::preview::{extract_lang_from_title, first_nonempty_line, title_is_ide, truncate_preview};
use crate::preview::{first_line_text, is_ide_title, is_tidy, last_extension, preview_text};
use crate::preview::law_preview_of_tidy_text;
use crate::rtf::rtf_to_plain;
use crate::rtf::rtf_visible;
use crate::storage::media_file_names;
use crate::storage::media_filenames;
use crate::text::{from_chars, line_ranges, push_decimal, push_int, to_chars};
use crate::text::{decimal, int_text, lines};
use crate::thumb::thumb_png;
use crate::thumb::{thumb_dims, thumb_pixels};
use crate::wide::text_before_null;
use crate::wide::{before_null, law_text_up_to_null, utf16, utf16_text};

verus! {

// ---------------------------------------------------------------------
// Which format to capture.
// ---------------------------------------------------------------------
/// What is read from the clipboard.
#[derive(Clone, Copy, Debug, PartialEq, Eq, Structural)]
pub enum Source {
    Files,
    /// The text that a spreadsheet puts beside its own format.
    SheetText,
    /// A spreadsheet in its own format.
    SheetRaw,
    Rtf,
    Html,
    Image,
    UnicodeText,
    AnsiText,
}

/// Whether the clipboard offers a registered format.
pub open spec fn offers(available: Seq<u32>, format: u32) -> bool {
    format != 0 && available.contains(format)
}

/// What to read where the clipboard offers the given formats: the most
/// informative one that is there. A spreadsheet is read as text where it comes
/// with one.
pub open spec fn source_for(available: Seq<u32>, reg: RegFormats) -> Option<Source> {
    if available.contains(CF_HDROP) {
        Some(Source::Files)
    } else if offers(available, reg.sheet) {
        if available.contains(CF_TEXT) {
            Some(Source::SheetText)
        } else {
            Some(Source::SheetRaw)
        }
    } else if offers(available, reg.rtf) {
        Some(Source::Rtf)
    } else if offers(available, reg.html) {
        Some(Source::Html)
    } else if available.contains(CF_DIB) || available.contains(CF_BITMAP) {
        Some(Source::Image)
    } else if available.contains(CF_UNICODETEXT) {
        Some(Source::UnicodeText)
    } else if available.contains(CF_TEXT) {
        Some(Source::AnsiText)
    } else {
        None
    }
}

/// Whether `formats` holds `f`.
fn holds(formats: &Vec<u32>, f: u32) -> (r: bool)
    ensures
        r == formats@.contains(f),
{
    let mut i: usize = 0;
    while i < formats.len()
        invariant
            i <= formats@.len(),
            forall|k: int| 0 <= k < i ==> formats@[k] != f,
        decreases formats@.len() - i,
    {
        if formats[i] == f {
            return true;
        }
        i += 1;
    }
    false
}

/// What to read where the clipboard offers the given formats.
pub fn choose_source(available: &Vec<u32>, reg: &RegFormats) -> (r: Option<Source>)
    ensures
        r == source_for(available@, *reg),
{
    if holds(available, CF_HDROP) {
        Some(Source::Files)
    } else if reg.sheet != 0 && holds(available, reg.sheet) {
        if holds(available, CF_TEXT) {
            Some(Source::SheetText)
        } else {
            Some(Source::SheetRaw)
        }
    } else if reg.rtf != 0 && holds(available, reg.rtf) {
        Some(Source::Rtf)
    } else if reg.html != 0 && holds(available, reg.html) {
        Some(Source::Html)
    } else if holds(available, CF_DIB) || holds(available, CF_BITMAP) {
        Some(Source::Image)
    } else if holds(available, CF_UNICODETEXT) {
        Some(Source::UnicodeText)
    } else if holds(available, CF_TEXT) {
        Some(Source::AnsiText)
    } else {
        None
    }
}

/// What to read where nothing usable came of `source`.
pub open spec fn fallback_of(source: Source) -> Option<Source> {
    if source == Source::SheetText {
        Some(Source::SheetRaw)
    } else {
        None
    }
}

/// What to read where nothing usable came of `source`.
pub fn fallback(source: Source) -> (r: Option<Source>)
    ensures
        r == fallback_of(source),
{
    if source == Source::SheetText {
        Some(Source::SheetRaw)
    } else {
        None
    }
}

/// The format in which a source is read. The system makes the bitmap of an
/// image where only another form of it is offered.
pub open spec fn format_of(source: Source, reg: RegFormats) -> u32 {
    match source {
        Source::Files => CF_HDROP,
        Source::SheetText => CF_TEXT,
        Source::SheetRaw => reg.sheet,
        Source::Rtf => reg.rtf,
        Source::Html => reg.html,
        Source::Image => CF_DIB,
        Source::UnicodeText => CF_UNICODETEXT,
        Source::AnsiText => CF_TEXT,
    }
}

/// The format in which a source is read.
pub fn source_format(source: Source, reg: &RegFormats) -> (r: u32)
    ensures
        r == format_of(source, *reg),
{
    match source {
        Source::Files => CF_HDROP,
        Source::SheetText => CF_TEXT,
        Source::SheetRaw => reg.sheet,
        Source::Rtf => reg.rtf,
        Source::Html => reg.html,
        Source::Image => CF_DIB,
        Source::UnicodeText => CF_UNICODETEXT,
        Source::AnsiText => CF_TEXT,
    }
}

/// What is read is on the clipboard, and so is what is read in its place.
pub proof fn law_source_is_offered(available: Seq<u32>, reg: RegFormats)
    ensures
        source_for(available, reg) matches Some(s) ==> {
            &&& available.contains(format_of(s, reg)) || (s == Source::Image && available.contains(
                CF_BITMAP,
            ))
            &&& fallback_of(s) matches Some(f) ==> available.contains(format_of(f, reg))
        },
{
}

/// Something is read whenever one of the known formats is on the clipboard.
pub proof fn law_known_formats_are_read(available: Seq<u32>, reg: RegFormats)
    ensures
        source_for(available, reg) is Some == (available.contains(CF_HDROP) || offers(
            available,
            reg.sheet,
        ) || offers(available, reg.rtf) || offers(available, reg.html) || available.contains(CF_DIB)
            || available.contains(CF_BITMAP) || available.contains(CF_UNICODETEXT)
            || available.contains(CF_TEXT)),
{
}

// ---------------------------------------------------------------------
// Items with their payload inside.
// ---------------------------------------------------------------------
/// An item that was just captured and holds its payload.
pub open spec fn new_item(
    id: u64,
    now: u64,
    kind: ItemType,
    raw: Seq<u8>,
    preview: Seq<char>,
    lang: Option<Seq<char>>,
) -> ItemView {
    ItemView {
        id,
        kind,
        raw,
        preview,
        timestamp: now,
        pinned: false,
        lang,
        content_hash: fnv1a(raw),
        media_file: None,
        thumb_file: None,
        media_w: None,
        media_h: None,
    }
}

fn make_item(
    id: u64,
    now: u64,
    kind: ItemType,
    raw: Vec<u8>,
    preview: String,
    lang: Option<String>,
) -> (r: ClipItem)
    ensures
        r@ == new_item(id, now, kind, raw@, preview@, text_of(lang)),
{
    let content_hash: u64 = fnv1a_64(raw.as_slice());
    ClipItem {
        id,
        kind,
        raw,
        preview,
        timestamp: now,
        pinned: false,
        lang,
        content_hash,
        media_file: None,
        thumb_file: None,
        media_w: None,
        media_h: None,
    }
}

/// The bytes of a text.
fn utf8_bytes(s: &str) -> (r: Vec<u8>)
    ensures
        r@ == encode_utf8(s@),
{
    s.as_bytes_vec()
}

/// The longest preview.
pub const PREVIEW_MAX: usize = 80;

// ---------------------------------------------------------------------
// Files.
// ---------------------------------------------------------------------
/// The characters of a list of strings.
pub open spec fn texts(names: Seq<String>) -> Seq<Seq<char>> {
    names.map_values(|s: String| s@)
}

/// The texts that are not empty.
pub open spec fn nonempty(names: Seq<Seq<char>>) -> Seq<Seq<char>>
    decreases names.len(),
{
    if names.len() == 0 {
        seq![]
    } else if names.last().len() > 0 {
        nonempty(names.drop_last()).push(names.last())
    } else {
        nonempty(names.drop_last())
    }
}

/// The texts one after the other, line breaks between them.
pub open spec fn joined(names: Seq<Seq<char>>) -> Seq<char>
    decreases names.len(),
{
    if names.len() == 0 {
        seq![]
    } else if names.len() == 1 {
        names[0]
    } else {
        joined(names.drop_last()) + seq!['\n'] + names.last()
    }
}

/// What stands behind the last separator of a path.
pub open spec fn base_name(path: Seq<char>) -> Seq<char>
    decreases path.len(),
{
    if path.len() == 0 || path.last() == '\\' || path.last() == '/' {
        seq![]
    } else {
        base_name(path.drop_last()).push(path.last())
    }
}

/// The preview of copied files: the name of the only one, or the name of the
/// first and how many more there are.
pub open spec fn files_preview(names: Seq<Seq<char>>) -> Seq<char> {
    if names.len() == 1 {
        preview_text(base_name(names[0]), PREVIEW_MAX as nat)
    } else {
        base_name(names[0]) + " + "@ + decimal((names.len() - 1) as nat) + " more"@
    }
}

/// The name behind the last separator of a path.
pub fn file_name(path: &str) -> (r: String)
    ensures
        r@ == base_name(path@),
{
    let cs = to_chars(path);
    let mut lo: usize = cs.len();
    assert(cs@.take(cs@.len() as int) =~= cs@);
    assert(cs@.skip(cs@.len() as int) =~= seq![]);
    assert(base_name(path@) =~= base_name(path@) + cs@.skip(lo as int));
    while lo > 0 && cs[lo - 1] != '\\' && cs[lo - 1] != '/'
        invariant
            lo <= cs@.len(),
            cs@ == path@,
            base_name(path@) == base_name(cs@.take(lo as int)) + cs@.skip(lo as int),
        decreases lo,
    {
        let ghost head = cs@.take(lo as int);
        assert(head.drop_last() =~= cs@.take(lo - 1));
        assert(head.last() == cs@[lo - 1]);
        assert(base_name(head) + cs@.skip(lo as int) =~= base_name(cs@.take(lo - 1)) + cs@.skip(
            lo - 1,
        ));
        lo -= 1;
    }
    assert(base_name(path@) =~= cs@.skip(lo as int)) by {
        if lo > 0 {
            assert(cs@.take(lo as int).last() == cs@[lo - 1]);
        }
        assert(base_name(cs@.take(lo as int)) =~= seq![]);
    }
    assert(cs@.subrange(lo as int, cs@.len() as int) =~= cs@.skip(lo as int));
    from_chars(&cs[lo..cs.len()])
}

/// The names that are not empty.
fn keep_nonempty(names: &Vec<String>) -> (r: Vec<String>)
    ensures
        texts(r@) == nonempty(texts(names@)),
{
    let mut out: Vec<String> = Vec::new();
    let mut i: usize = 0;
    assert(texts(out@) =~= nonempty(texts(names@).take(0)));
    while i < names.len()
        invariant
            i <= names@.len(),
            texts(out@) == nonempty(texts(names@).take(i as int)),
        decreases names@.len() - i,
    {
        let ghost before = texts(out@);
        assert(texts(names@).take(i + 1).drop_last() =~= texts(names@).take(i as int));
        assert(texts(names@).take(i + 1).last() == names@[i as int]@);
        if !names[i].as_str().is_empty() {
            out.push(names[i].clone());
            assert(texts(out@) =~= before.push(names@[i as int]@));
        }
        i += 1;
    }
    assert(texts(names@).take(names@.len() as int) =~= texts(names@));
    out
}

/// The names one after the other, line breaks between them.
fn join_lines(names: &Vec<String>) -> (r: String)
    requires
        names@.len() > 0,
    ensures
        r@ == joined(texts(names@)),
{
    let mut out = names[0].clone();
    let mut i: usize = 1;
    assert(texts(names@).take(1) =~= seq![names@[0]@]);
    while i < names.len()
        invariant
            1 <= i <= names@.len(),
            out@ == joined(texts(names@).take(i as int)),
        decreases names@.len() - i,
    {
        assert(texts(names@).take(i + 1).drop_last() =~= texts(names@).take(i as int));
        assert(texts(names@).take(i + 1).last() == names@[i as int]@);
        let ghost before = out@;
        out.push('\n');
        out.append(names[i].as_str());
        assert(out@ =~= before + seq!['\n'] + names@[i as int]@);
        i += 1;
    }
    assert(texts(names@).take(names@.len() as int) =~= texts(names@));
    out
}

/// The item for copied files; `None` where no name is left.
pub open spec fn copied_files(id: u64, now: u64, names: Seq<Seq<char>>) -> Option<ItemView> {
    let files = nonempty(names);
    if files.len() > 0 {
        Some(
            new_item(
                id,
                now,
                ItemType::File,
                encode_utf8(joined(files)),
                files_preview(files),
                None,
            ),
        )
    } else {
        None
    }
}

/// The item for copied files; `None` where no name is left.
pub fn files_item(id: u64, now: u64, names: &Vec<String>) -> (r: Option<ClipItem>)
    ensures
        r is Some == (nonempty(texts(names@)).len() > 0),
        r matches Some(item) ==> {
            let files = nonempty(texts(names@));
            item@ == new_item(
                id,
                now,
                ItemType::File,
                encode_utf8(joined(files)),
                files_preview(files),
                None,
            )
        },
        r is Some == copied_files(id, now, texts(names@)) is Some,
        r matches Some(item) ==> copied_files(id, now, texts(names@)) == Some(item@),
{
    let files = keep_nonempty(names);
    assert(files@.len() == nonempty(texts(names@)).len());
    if files.len() == 0 {
        return None;
    }
    let all = join_lines(&files);
    assert(texts(files@)[0] == files@[0]@);
    let first = file_name(files[0].as_str());
    let preview = if files.len() == 1 {
        truncate_preview(first.as_str(), PREVIEW_MAX)
    } else {
        let mut p = first;
        p.append(" + ");
        push_decimal(&mut p, (files.len() - 1) as u128);
        p.append(" more");
        p
    };
    Some(make_item(id, now, ItemType::File, utf8_bytes(all.as_str()), preview, None))
}

// ---------------------------------------------------------------------
// Text.
// ---------------------------------------------------------------------
/// How plain text is shown, given the title of the window that it was copied
/// from: as code with a language hint where that is a code editor.
pub open spec fn classified(s: Seq<char>, title: Option<Seq<char>>) -> (
    ItemType,
    Seq<char>,
    Option<Seq<char>>,
) {
    match title {
        Some(t) => if is_ide_title(t) {
            (
                ItemType::Code,
                first_line_text(s, PREVIEW_MAX as nat),
                last_extension(t, t.len() as int),
            )
        } else {
            (ItemType::Text, preview_text(s, PREVIEW_MAX as nat), None)
        },
        None => (ItemType::Text, preview_text(s, PREVIEW_MAX as nat), None),
    }
}

/// The item for plain text.
pub open spec fn text_item_view(
    id: u64,
    now: u64,
    raw: Seq<u8>,
    s: Seq<char>,
    title: Option<Seq<char>>,
) -> ItemView {
    let (kind, preview, lang) = classified(s, title);
    new_item(id, now, kind, raw, preview, lang)
}

/// The kind, the preview and the language hint of plain text.
pub fn classify_text(s: &str, title: &Option<String>) -> (r: (ItemType, String, Option<String>))
    ensures
        (r.0, r.1@, text_of(r.2)) == classified(s@, text_of(*title)),
{
    if let Some(t) = title {
        if title_is_ide(t.as_str()) {
            let lang = extract_lang_from_title(t.as_str());
            return (ItemType::Code, first_nonempty_line(s, PREVIEW_MAX), lang);
        }
    }
    (ItemType::Text, truncate_preview(s, PREVIEW_MAX), None)
}

/// The item for text in UTF-16, up to the first null.
pub open spec fn unicode_item(
    id: u64,
    now: u64,
    units: Seq<u16>,
    title: Option<Seq<char>>,
) -> ItemView {
    let s = utf16_text(before_null(units));
    text_item_view(id, now, encode_utf8(s), s, title)
}

/// The item for text in UTF-16, up to the first null.
pub fn unicode_text_item(id: u64, now: u64, units: &[u16], title: &Option<String>) -> (r: ClipItem)
    ensures
        r@ == text_item_view(
            id,
            now,
            encode_utf8(utf16_text(before_null(units@))),
            utf16_text(before_null(units@)),
            text_of(*title),
        ),
        r@ == unicode_item(id, now, units@, text_of(*title)),
{
    let s = text_before_null(units);
    let (kind, preview, lang) = classify_text(s.as_str(), title);
    make_item(id, now, kind, utf8_bytes(s.as_str()), preview, lang)
}

/// The bytes in front of the first null.
pub open spec fn bytes_before_null(b: Seq<u8>) -> Seq<u8>
    decreases b.len(),
{
    if b.len() == 0 || b[0] == 0 {
        seq![]
    } else {
        seq![b[0]] + bytes_before_null(b.skip(1))
    }
}

/// The bytes in front of the first null.
fn cut_at_null(b: &[u8]) -> (r: Vec<u8>)
    ensures
        r@ == bytes_before_null(b@),
{
    let mut out: Vec<u8> = Vec::new();
    let mut i: usize = 0;
    assert(b@.skip(0) =~= b@);
    assert(out@ + bytes_before_null(b@) =~= bytes_before_null(b@));
    while i < b.len() && b[i] != 0
        invariant
            i <= b@.len(),
            bytes_before_null(b@) == out@ + bytes_before_null(b@.skip(i as int)),
        decreases b@.len() - i,
    {
        out.push(b[i]);
        assert(b@.skip(i as int).skip(1) =~= b@.skip(i + 1));
        assert(out@ + bytes_before_null(b@.skip(i + 1)) =~= bytes_before_null(b@));
        i += 1;
    }
    assert(out@ =~= bytes_before_null(b@));
    out
}

/// The item for text in bytes, up to the first null.
pub open spec fn ansi_item(
    id: u64,
    now: u64,
    bytes: Seq<u8>,
    title: Option<Seq<char>>,
) -> ItemView {
    let raw = bytes_before_null(bytes);
    text_item_view(id, now, raw, utf8_text(raw), title)
}

/// The item for text in bytes, up to the first null.
pub fn ansi_text_item(id: u64, now: u64, bytes: &[u8], title: &Option<String>) -> (r: ClipItem)
    ensures
        r@ == text_item_view(
            id,
            now,
            bytes_before_null(bytes@),
            utf8_text(bytes_before_null(bytes@)),
            text_of(*title),
        ),
        r@ == ansi_item(id, now, bytes@, text_of(*title)),
{
    let raw = cut_at_null(bytes);
    let s = utf8_lossy(raw.as_slice());
    let (kind, preview, lang) = classify_text(s.as_str(), title);
    make_item(id, now, kind, raw, preview, lang)
}

// ---------------------------------------------------------------------
// Rich text, HTML, spreadsheets.
// ---------------------------------------------------------------------
/// The plain text of a payload of the given kind.
pub open spec fn plain_text(kind: ItemType, text: Seq<char>) -> Seq<char> {
    if kind == ItemType::Html {
        without_entities(without_tags(cf_html_body(text), 0))
    } else if kind == ItemType::RichText {
        utf8_text(rtf_visible(encode_utf8(text)))
    } else {
        text
    }
}

/// The preview of a payload of `size` bytes that reads as `text`: its plain
/// text, or the name of the format and the size where there is none.
pub open spec fn payload_preview(
    kind: ItemType,
    label: Seq<char>,
    text: Seq<char>,
    size: nat,
) -> Seq<char> {
    let p = preview_text(plain_text(kind, text), PREVIEW_MAX as nat);
    if p.len() == 0 {
        "["@ + label + " "@ + decimal(size) + "B]"@
    } else {
        p
    }
}

/// The preview of a payload of `size` bytes that reads as `text`.
pub fn describe_payload(kind: ItemType, label: &str, text: &str, size: usize) -> (r: String)
    ensures
        r@ == payload_preview(kind, label@, text@, size as nat),
{
    let cleaned = if kind == ItemType::Html {
        cf_html_to_plain(text)
    } else if kind == ItemType::RichText {
        rtf_to_plain(text)
    } else {
        text.to_owned()
    };
    let p = truncate_preview(cleaned.as_str(), PREVIEW_MAX);
    if !p.as_str().is_empty() {
        return p;
    }
    let mut out = "[".to_owned();
    out.append(label);
    out.append(" ");
    push_decimal(&mut out, size as u128);
    out.append("B]");
    out
}

/// The item for a payload that is kept byte for byte.
pub open spec fn kept_item(
    id: u64,
    now: u64,
    kind: ItemType,
    label: Seq<char>,
    bytes: Seq<u8>,
) -> ItemView {
    new_item(
        id,
        now,
        kind,
        bytes,
        payload_preview(kind, label, utf8_text(bytes), bytes.len()),
        None,
    )
}

/// The item for a payload that is kept byte for byte.
pub fn payload_item(id: u64, now: u64, kind: ItemType, label: &str, bytes: Vec<u8>) -> (r: ClipItem)
    ensures
        r@ == new_item(
            id,
            now,
            kind,
            bytes@,
            payload_preview(kind, label@, utf8_text(bytes@), bytes@.len()),
            None,
        ),
        r@ == kept_item(id, now, kind, label@, bytes@),
{
    let text = utf8_lossy(bytes.as_slice());
    let preview = describe_payload(kind, label, text.as_str(), bytes.len());
    make_item(id, now, kind, bytes, preview, None)
}

/// The number of columns of a line: one more than it has tabs.
pub open spec fn column_count(line: Seq<char>) -> nat
    decreases line.len(),
{
    if line.len() == 0 {
        1
    } else if line.last() == '\t' {
        column_count(line.drop_last()) + 1
    } else {
        column_count(line.drop_last())
    }
}

/// The number of lines that are not empty.
pub open spec fn filled_rows(ls: Seq<Seq<char>>) -> nat
    decreases ls.len(),
{
    if ls.len() == 0 {
        0
    } else if ls.last().len() > 0 {
        filled_rows(ls.drop_last()) + 1
    } else {
        filled_rows(ls.drop_last())
    }
}

/// The most columns of a line that is not empty.
pub open spec fn most_columns(ls: Seq<Seq<char>>) -> nat
    decreases ls.len(),
{
    if ls.len() == 0 {
        0
    } else {
        let before = most_columns(ls.drop_last());
        if ls.last().len() > 0 && column_count(ls.last()) > before {
            column_count(ls.last())
        } else {
            before
        }
    }
}

/// The preview of a table: its rows and columns.
pub open spec fn table_preview(text: Seq<char>) -> Seq<char> {
    decimal(filled_rows(lines(text))) + " rows x "@ + decimal(most_columns(lines(text)))
        + " cols"@
}

/// The number of columns of `cs[lo..hi]`.
fn count_columns(cs: &[char], lo: usize, hi: usize) -> (r: u128)
    requires
        lo <= hi <= cs@.len(),
    ensures
        r == column_count(cs@.subrange(lo as int, hi as int)),
        1 <= r <= hi - lo + 1,
{
    let mut n: u128 = 1;
    let mut i: usize = lo;
    assert(cs@.subrange(lo as int, lo as int) =~= seq![]);
    while i < hi
        invariant
            lo <= i <= hi <= cs@.len(),
            1 <= n <= i - lo + 1,
            n == column_count(cs@.subrange(lo as int, i as int)),
        decreases hi - i,
    {
        let ghost part = cs@.subrange(lo as int, i + 1);
        assert(part.drop_last() =~= cs@.subrange(lo as int, i as int));
        assert(part.last() == cs@[i as int]);
        if cs[i] == '\t' {
            n += 1;
        }
        i += 1;
    }
    n
}

/// The rows and columns of a table in text form: the lines that are not empty,
/// and the most tab-separated columns among them.
pub fn table_size(text: &str) -> (r: (usize, u128))
    ensures
        r.0 == filled_rows(lines(text@)),
        r.1 == most_columns(lines(text@)),
{
    let cs = to_chars(text);
    let ranges = line_ranges(cs.as_slice());
    let ghost ls = lines(text@);
    let mut rows: usize = 0;
    let mut cols: u128 = 0;
    let mut i: usize = 0;
    assert(ls.take(0) =~= seq![]);
    while i < ranges.len()
        invariant
            i <= ranges.len(),
            cs@ == text@,
            ls == lines(text@),
            ranges@.len() == ls.len(),
            forall|k: int|
                0 <= k < ranges@.len() ==> (#[trigger] ranges@[k]).0 <= ranges@[k].1 <= cs@.len()
                    && cs@.subrange(ranges@[k].0 as int, ranges@[k].1 as int) == ls[k],
            rows <= i,
            rows == filled_rows(ls.take(i as int)),
            cols == most_columns(ls.take(i as int)),
        decreases ranges@.len() - i,
    {
        let (lo, hi) = ranges[i];
        assert(ls.take(i + 1).drop_last() =~= ls.take(i as int));
        assert(ls.take(i + 1).last() == ls[i as int]);
        if lo < hi {
            rows += 1;
            let c: u128 = count_columns(cs.as_slice(), lo, hi);
            if c > cols {
                cols = c;
            }
        }
        i += 1;
    }
    assert(ls.take(ls.len() as int) =~= ls);
    (rows, cols)
}

/// The item for a spreadsheet that is read as text, up to the first null;
/// `None` where the text has no row.
pub open spec fn sheet_item(id: u64, now: u64, bytes: Seq<u8>) -> Option<ItemView> {
    let raw = bytes_before_null(bytes);
    let text = utf8_text(raw);
    if filled_rows(lines(text)) > 0 {
        Some(new_item(id, now, ItemType::Spreadsheet, raw, table_preview(text), None))
    } else {
        None
    }
}

/// The item for a spreadsheet that is read as text, up to the first null;
/// `None` where the text has no row.
pub fn sheet_text_item(id: u64, now: u64, bytes: &[u8]) -> (r: Option<ClipItem>)
    ensures
        ({
            let raw = bytes_before_null(bytes@);
            let text = utf8_text(raw);
            &&& r is Some == (filled_rows(lines(text)) > 0)
            &&& r matches Some(item) ==> item@ == new_item(
                id,
                now,
                ItemType::Spreadsheet,
                raw,
                table_preview(text),
                None,
            )
        }),
        r is Some == sheet_item(id, now, bytes@) is Some,
        r matches Some(item) ==> sheet_item(id, now, bytes@) == Some(item@),
{
    let raw = cut_at_null(bytes);
    let text = utf8_lossy(raw.as_slice());
    let (rows, cols) = table_size(text.as_str());
    if rows == 0 {
        return None;
    }
    let mut preview = String::new();
    push_decimal(&mut preview, rows as u128);
    preview.append(" rows x ");
    push_decimal(&mut preview, cols);
    preview.append(" cols");
    assert(preview@ =~= table_preview(text@));
    Some(make_item(id, now, ItemType::Spreadsheet, raw, preview, None))
}

// ---------------------------------------------------------------------
// Images.
// ---------------------------------------------------------------------
/// An image item with the files that back it.
#[derive(Clone, Debug)]
pub struct CapturedImage {
    pub item: ClipItem,
    /// The image: a PNG file, or the bitmap itself where that has a form which
    /// is not converted.
    pub file: Vec<u8>,
    /// The thumbnail, where the bitmap can be read.
    pub thumb: Option<Vec<u8>>,
}

/// The preview of an image: the size that its header gives.
pub open spec fn image_preview(dib: Seq<u8>) -> Seq<char> {
    let (w, h) = if dib.len() >= 12 {
        (header_of(dib).width as int, rows_of(header_of(dib)))
    } else {
        (0int, 0int)
    };
    "[Image "@ + int_text(w) + "x"@ + int_text(h) + "]"@
}

/// The file in which an image is kept: a PNG file of a plain bitmap, any other
/// bitmap as it is.
pub open spec fn image_file(dib: Seq<u8>) -> Seq<u8> {
    if is_plain_dib(dib) {
        png_of_dib(dib)
    } else {
        dib
    }
}

/// The item for an image.
pub open spec fn image_item_view(id: u64, now: u64, dib: Seq<u8>) -> ItemView {
    let shown = dib_bgra(dib);
    ItemView {
        id,
        kind: ItemType::Image,
        raw: seq![],
        preview: image_preview(dib),
        timestamp: now,
        pinned: false,
        lang: None,
        content_hash: fnv1a(image_file(dib)),
        media_file: Some(media_file_names(id as nat).0),
        thumb_file: if shown is Some {
            Some(media_file_names(id as nat).1)
        } else {
            None
        },
        media_w: match shown {
            Some((_, w, _)) => Some(w as u32),
            None => None,
        },
        media_h: match shown {
            Some((_, _, h)) => Some(h as u32),
            None => None,
        },
    }
}

/// The PNG file of the thumbnail of a bitmap that is shown with the given
/// pixels.
pub open spec fn thumb_file(bgra: Seq<u8>, w: u32, h: u32) -> Seq<u8> {
    png_file(thumb_pixels(swapped(bgra), w, h), thumb_dims(w, h).0, thumb_dims(w, h).1)
}

/// Whether `thumb` holds the thumbnail of a bitmap that is shown with the given
/// pixels.
pub open spec fn holds_thumb(thumb: Seq<u8>, bgra: Seq<u8>, w: u32, h: u32) -> bool {
    png_holds(
        thumb,
        thumb_dims(w, h).0,
        thumb_dims(w, h).1,
        thumb_pixels(swapped(bgra), w, h),
    )
}

/// The size in the header of a bitmap, zero where there is none.
fn header_size(dib: &[u8]) -> (r: (i64, i64))
    ensures
        dib@.len() >= 12 ==> r.0 == header_of(dib@).width && r.1 == rows_of(header_of(dib@)),
        dib@.len() < 12 ==> r == (0i64, 0i64),
{
    if dib.len() < 12 {
        return (0, 0);
    }
    let w: i64 = crate::bytes::read_i32(dib, 4) as i64;
    let h: i64 = crate::bytes::read_i32(dib, 8) as i64;
    if h < 0 {
        (w, -h)
    } else {
        (w, h)
    }
}

/// The size of what can be shown.
proof fn lemma_shown_size(dib: Seq<u8>)
    ensures
        dib_bgra(dib) matches Some((px, w, h)) ==> 0 < w && 0 < h && px.len() == 4 * (w * h),
{
    if dib_bgra(dib) is Some {
        let h = header_of(dib);
        let n = h.width * rows_of(h);
        assert(n >= 0) by (nonlinear_arith)
            requires
                n == h.width * rows_of(h),
                h.width >= 0,
                rows_of(h) >= 0,
        ;
    }
}

/// The item for an image, with the files that back it. The image is kept as
/// PNG where it is a plain bitmap.
pub fn image_item(id: u64, now: u64, dib: Vec<u8>) -> (r: CapturedImage)
    ensures
        r.item@ == image_item_view(id, now, dib@),
        r.file@ == image_file(dib@),
        is_plain_dib(dib@) ==> png_holds(
            r.file@,
            header_of(dib@).width as u32,
            rows_of(header_of(dib@)) as u32,
            dib_rgba(dib@),
        ),
        r.thumb is Some == dib_bgra(dib@) is Some,
        dib_bgra(dib@) matches Some((px, w, h)) ==> {
            &&& r.thumb->0@ == thumb_file(px, w as u32, h as u32)
            &&& holds_thumb(r.thumb->0@, px, w as u32, h as u32)
        },
{
    let (w, h) = header_size(dib.as_slice());
    let mut preview = "[Image ".to_owned();
    push_int(&mut preview, w);
    preview.append("x");
    push_int(&mut preview, h);
    preview.append("]");
    assert(preview@ =~= image_preview(dib@));
    proof {
        lemma_shown_size(dib@);
    }
    let shown = decode_dib_to_bgra(dib.as_slice());
    let (media, thumb_name) = media_filenames(id);
    let (thumb, thumb_file, media_w, media_h) = match shown {
        Some((bgra, bw, bh)) => {
            assert(bgra@.len() % 4 == 0) by {
                assert(bgra@.len() == 4 * (bw * bh));
            }
            let rgba = crate::dib::swap_channels(bgra.as_slice());
            (
                thumb_png(rgba.as_slice(), bw as u32, bh as u32),
                Some(thumb_name),
                Some(bw as u32),
                Some(bh as u32),
            )
        },
        None => (None, None, None, None),
    };
    let file: Vec<u8> = match dib_to_png(dib.as_slice()) {
        Some(png) => png,
        None => dib,
    };
    let raw: Vec<u8> = Vec::new();
    assert(raw@ =~= seq![]);
    let item = ClipItem {
        id,
        kind: ItemType::Image,
        raw,
        preview,
        timestamp: now,
        pinned: false,
        lang: None,
        content_hash: fnv1a_64(file.as_slice()),
        media_file: Some(media),
        thumb_file,
        media_w,
        media_h,
    };
    CapturedImage { item, file, thumb }
}

/// A captured image can be stored: its payload is in a file of its own.
pub proof fn law_captured_image_is_storable(id: u64, now: u64, dib: Seq<u8>)
    ensures
        crate::storage::storable(image_item_view(id, now, dib)),
        crate::storage::has_own_files(image_item_view(id, now, dib)),
        image_item_view(id, now, dib).media_file is Some,
{
}

/// The same image captured twice in a row is added once.
pub proof fn law_same_image_is_repeat(
    hist: Seq<ItemView>,
    id: u64,
    now: u64,
    later_id: u64,
    later: u64,
    dib: Seq<u8>,
)
    requires
        crate::history::is_kept(hist, image_item_view(id, now, dib)),
    ensures
        ({
            let first = image_item_view(id, now, dib);
            let second = image_item_view(later_id, later, dib);
            crate::history::is_repeat(crate::history::pruned(hist.push(first)), second)
        }),
{
    crate::history::law_repeat_is_ignored(
        hist,
        image_item_view(id, now, dib),
        image_item_view(later_id, later, dib),
    );
}

/// The same payload captured twice in a row is added once.
pub proof fn law_same_payload_is_repeat(
    hist: Seq<ItemView>,
    id: u64,
    now: u64,
    later_id: u64,
    later: u64,
    kind: ItemType,
    raw: Seq<u8>,
    preview: Seq<char>,
    lang: Option<Seq<char>>,
)
    requires
        crate::history::is_kept(hist, new_item(id, now, kind, raw, preview, lang)),
    ensures
        ({
            let first = new_item(id, now, kind, raw, preview, lang);
            let second = new_item(later_id, later, kind, raw, preview, lang);
            crate::history::is_repeat(crate::history::pruned(hist.push(first)), second)
        }),
{
    crate::history::law_repeat_is_ignored(
        hist,
        new_item(id, now, kind, raw, preview, lang),
        new_item(later_id, later, kind, raw, preview, lang),
    );
}

// ---------------------------------------------------------------------
// What is captured, format by format.
// ---------------------------------------------------------------------
/// What is read is the first of these that is on the clipboard: files, a
/// spreadsheet, rich text, HTML, an image, Unicode text, other text. What is
/// there besides makes no difference. Formats that have no number are never
/// there.
pub proof fn law_first_format_wins(available: Seq<u32>, reg: RegFormats)
    ensures
        ({
            let files = available.contains(15);
            let sheet = reg.sheet != 0 && available.contains(reg.sheet);
            let rtf = reg.rtf != 0 && available.contains(reg.rtf);
            let html = reg.html != 0 && available.contains(reg.html);
            let image = available.contains(8) || available.contains(2);
            let wide = available.contains(13);
            let ansi = available.contains(1);
            let r = source_for(available, reg);
            &&& files ==> r == Some(Source::Files)
            &&& !files && sheet && ansi ==> r == Some(Source::SheetText)
            &&& !files && sheet && !ansi ==> r == Some(Source::SheetRaw)
            &&& !files && !sheet && rtf ==> r == Some(Source::Rtf)
            &&& !files && !sheet && !rtf && html ==> r == Some(Source::Html)
            &&& !files && !sheet && !rtf && !html && image ==> r == Some(Source::Image)
            &&& !files && !sheet && !rtf && !html && !image && wide ==> r == Some(
                Source::UnicodeText,
            )
            &&& !files && !sheet && !rtf && !html && !image && !wide && ansi ==> r == Some(
                Source::AnsiText,
            )
            &&& !files && !sheet && !rtf && !html && !image && !wide && !ansi ==> r is None
        }),
{
}

/// The place of a source in the order in which they are tried.
pub open spec fn source_rank(s: Source) -> int {
    match s {
        Source::Files => 0,
        Source::SheetText => 1,
        Source::SheetRaw => 1,
        Source::Rtf => 2,
        Source::Html => 3,
        Source::Image => 4,
        Source::UnicodeText => 5,
        Source::AnsiText => 6,
    }
}

/// One more format on the clipboard never makes a later source win, and where
/// an earlier one or the same wins, the order in which the formats are listed
/// makes no difference either.
pub proof fn law_more_formats_never_lose(
    available: Seq<u32>,
    more: Seq<u32>,
    reg: RegFormats,
)
    requires
        forall|f: u32| #[trigger] available.contains(f) ==> more.contains(f),
    ensures
        source_for(available, reg) matches Some(s) ==> (source_for(more, reg) matches Some(t)
            && source_rank(t) <= source_rank(s)),
        (forall|f: u32| #[trigger] more.contains(f) ==> available.contains(f)) ==> source_for(
            more,
            reg,
        ) == source_for(available, reg),
{
    assert(available.contains(15) ==> more.contains(15));
    assert(available.contains(8) ==> more.contains(8));
    assert(available.contains(2) ==> more.contains(2));
    assert(available.contains(13) ==> more.contains(13));
    assert(available.contains(1) ==> more.contains(1));
    assert(available.contains(reg.sheet) ==> more.contains(reg.sheet));
    assert(available.contains(reg.rtf) ==> more.contains(reg.rtf));
    assert(available.contains(reg.html) ==> more.contains(reg.html));
}

/// The format that each source is read in; only the text of a spreadsheet has
/// something to fall back to.
pub proof fn law_source_formats(s: Source, reg: RegFormats)
    ensures
        format_of(Source::Files, reg) == 15,
        format_of(Source::SheetText, reg) == 1,
        format_of(Source::SheetRaw, reg) == reg.sheet,
        format_of(Source::Rtf, reg) == reg.rtf,
        format_of(Source::Html, reg) == reg.html,
        format_of(Source::Image, reg) == 8,
        format_of(Source::UnicodeText, reg) == 13,
        format_of(Source::AnsiText, reg) == 1,
        fallback_of(Source::SheetText) == Some(Source::SheetRaw),
        s != Source::SheetText ==> fallback_of(s) is None,
{
}

/// A captured item holds its payload as it came, is not pinned, and is
/// fingerprinted by the payload alone.
pub proof fn law_captured_item(
    id: u64,
    now: u64,
    kind: ItemType,
    raw: Seq<u8>,
    preview: Seq<char>,
    lang: Option<Seq<char>>,
)
    ensures
        ({
            let item = new_item(id, now, kind, raw, preview, lang);
            &&& item.id == id && item.timestamp == now && item.kind == kind
            &&& item.raw == raw && item.preview == preview && item.lang == lang
            &&& !item.pinned
            &&& item.content_hash == fnv1a(raw)
            &&& item.media_file is None && item.thumb_file is None
            &&& item.media_w is None && item.media_h is None
        }),
{
}

/// The names that are left are those that are not empty, in their order.
pub proof fn law_nonempty(names: Seq<Seq<char>>)
    ensures
        nonempty(names) == names.filter(|n: Seq<char>| n.len() > 0),
    decreases names.len(),
{
    reveal(Seq::filter);
    if names.len() > 0 {
        law_nonempty(names.drop_last());
    }
}

/// Joining puts one line break between neighbours: one name is itself, and two
/// lists joined one after the other are the joined lists with a break between
/// them.
pub proof fn law_joined(a: Seq<Seq<char>>, b: Seq<Seq<char>>, n: Seq<char>)
    ensures
        joined(seq![n]) == n,
        a.len() > 0 && b.len() > 0 ==> joined(a + b) == joined(a) + seq!['\n'] + joined(b),
    decreases b.len(),
{
    if a.len() > 0 && b.len() > 0 {
        let c = b.drop_last();
        assert((a + b).drop_last() =~= a + c);
        assert((a + b).last() == b.last());
        if b.len() == 1 {
            assert(a + c =~= a);
            assert(b[0] == b.last());
        } else {
            law_joined(a, c, n);
            assert(joined(a + b) =~= joined(a) + seq!['\n'] + joined(b));
        }
    }
}

/// The name of a file is what stands behind the last slash or backslash of its
/// path, and the whole of a path without any.
pub proof fn law_base_name(dir: Seq<char>, name: Seq<char>)
    requires
        !name.contains('\\'),
        !name.contains('/'),
    ensures
        base_name(dir + seq!['\\'] + name) == name,
        base_name(dir + seq!['/'] + name) == name,
        base_name(name) == name,
    decreases name.len(),
{
    let a = dir + seq!['\\'] + name;
    let b = dir + seq!['/'] + name;
    if name.len() > 0 {
        let n = name.drop_last();
        assert(name.contains(name.last()));
        assert forall|c: char| !name.contains(c) implies !#[trigger] n.contains(c) by {
            if n.contains(c) {
                let i = choose|i: int| 0 <= i < n.len() && n[i] == c;
                assert(name[i] == c);
            }
        }
        law_base_name(dir, n);
        assert(a.drop_last() =~= dir + seq!['\\'] + n);
        assert(b.drop_last() =~= dir + seq!['/'] + n);
        assert(a.last() == name.last() && b.last() == name.last());
        assert(n.push(name.last()) =~= name);
    } else {
        assert(a.last() == '\\' && b.last() == '/');
        assert(base_name(a) =~= name);
        assert(base_name(b) =~= name);
        assert(base_name(name) =~= name);
    }
}

/// Several files are previewed by the name of the first and the number of the
/// others, a single one by its name alone.
pub proof fn law_files_preview(path: Seq<char>, others: Seq<Seq<char>>)
    ensures
        files_preview(seq![path]) == preview_text(base_name(path), 80),
        is_tidy(base_name(path)) && base_name(path).len() <= 80 ==> files_preview(seq![path])
            == base_name(path),
        others.len() > 0 ==> files_preview(seq![path] + others) == base_name(path) + " + "@
            + decimal(others.len()) + " more"@,
{
    let name = base_name(path);
    let none: Seq<char> = seq![];
    if is_tidy(name) {
        law_preview_of_tidy_text(none, name, none, 80);
        assert(none + name + none =~= name);
    }
    assert(seq![path][0] == path);
    assert((seq![path] + others)[0] == path);
}

/// Text is code exactly where it comes from the window of a code editor; the
/// hint is then that of the title. Both kinds are previewed by 80 characters,
/// code by its first line.
pub proof fn law_text_kinds(s: Seq<char>, t: Seq<char>)
    ensures
        classified(s, None) == (ItemType::Text, preview_text(s, 80), None::<Seq<char>>),
        !is_ide_title(t) ==> classified(s, Some(t)) == classified(s, None),
        is_ide_title(t) ==> classified(s, Some(t)) == (
            ItemType::Code,
            first_line_text(s, 80),
            last_extension(t, t.len() as int),
        ),
{
}

/// An item for text keeps its bytes, whatever it is taken for.
pub proof fn law_text_item(
    id: u64,
    now: u64,
    raw: Seq<u8>,
    s: Seq<char>,
    title: Option<Seq<char>>,
)
    ensures
        ({
            let item = text_item_view(id, now, raw, s, title);
            &&& item.id == id && item.timestamp == now
            &&& item.raw == raw && item.content_hash == fnv1a(raw) && !item.pinned
            &&& (item.kind, item.preview, item.lang) == classified(s, title)
            &&& item.kind == ItemType::Text || item.kind == ItemType::Code
        }),
{
}

/// Bytes are read up to the first null, or as a whole where there is none.
pub proof fn law_bytes_before_null(a: Seq<u8>, rest: Seq<u8>)
    requires
        !a.contains(0),
    ensures
        bytes_before_null(a + seq![0u8] + rest) == a,
        bytes_before_null(a) == a,
    decreases a.len(),
{
    let s = a + seq![0u8] + rest;
    if a.len() > 0 {
        assert(a.contains(a[0]));
        assert(!a.skip(1).contains(0)) by {
            if a.skip(1).contains(0) {
                let i = choose|i: int| 0 <= i < a.skip(1).len() && a.skip(1)[i] == 0;
                assert(a[i + 1] == 0);
            }
        }
        law_bytes_before_null(a.skip(1), rest);
        assert(s[0] == a[0]);
        assert(s.skip(1) =~= a.skip(1) + seq![0u8] + rest);
        assert(seq![a[0]] + a.skip(1) =~= a);
    } else {
        assert(s[0] == 0);
        assert(bytes_before_null(s) =~= a);
        assert(bytes_before_null(a) =~= a);
    }
}

/// A payload is previewed by its text: that of HTML without its tags and with
/// its entities decoded, what is visible of rich text, and anything else as it
/// is. Where nothing is left the preview names the format and the size.
pub proof fn law_payload_preview(kind: ItemType, label: Seq<char>, text: Seq<char>, size: nat)
    ensures
        plain_text(ItemType::Html, text) == without_entities(without_tags(cf_html_body(text), 0)),
        plain_text(ItemType::RichText, text) == utf8_text(rtf_visible(encode_utf8(text))),
        kind != ItemType::Html && kind != ItemType::RichText ==> plain_text(kind, text) == text,
        preview_text(plain_text(kind, text), 80).len() > 0 ==> payload_preview(
            kind,
            label,
            text,
            size,
        ) == preview_text(plain_text(kind, text), 80),
        preview_text(plain_text(kind, text), 80).len() == 0 ==> payload_preview(
            kind,
            label,
            text,
            size,
        ) == "["@ + label + " "@ + decimal(size) + "B]"@,
{
}

/// A line without tabs has one column, and a tab between two parts puts the
/// columns of the one in front of those of the other.
pub proof fn law_columns(a: Seq<char>, b: Seq<char>)
    ensures
        !a.contains('\t') ==> column_count(a) == 1,
        column_count(a + seq!['\t'] + b) == column_count(a) + column_count(b),
    decreases a.len() + b.len(),
{
    let s = a + seq!['\t'] + b;
    if b.len() > 0 {
        law_columns(a, b.drop_last());
        assert(s.drop_last() =~= a + seq!['\t'] + b.drop_last());
        assert(s.last() == b.last());
    } else {
        assert(s.drop_last() =~= a);
        assert(s.last() == '\t');
    }
    if !a.contains('\t') {
        lemma_one_column(a);
    }
}

proof fn lemma_one_column(a: Seq<char>)
    requires
        !a.contains('\t'),
    ensures
        column_count(a) == 1,
    decreases a.len(),
{
    if a.len() > 0 {
        assert(a.contains(a.last()));
        let b = a.drop_last();
        assert(!b.contains('\t')) by {
            if b.contains('\t') {
                let i = choose|i: int| 0 <= i < b.len() && b[i] == '\t';
                assert(a[i] == '\t');
            }
        }
        lemma_one_column(b);
    }
}

/// The rows of a table are its lines that are not empty, and its columns those
/// of the widest of them.
pub proof fn law_table_size(ls: Seq<Seq<char>>)
    ensures
        filled_rows(ls) == ls.filter(|l: Seq<char>| l.len() > 0).len(),
        forall|i: int|
            0 <= i < ls.len() && (#[trigger] ls[i]).len() > 0 ==> column_count(ls[i])
                <= most_columns(ls),
        filled_rows(ls) > 0 ==> exists|i: int|
            0 <= i < ls.len() && (#[trigger] ls[i]).len() > 0 && column_count(ls[i])
                == most_columns(ls),
        filled_rows(ls) == 0 ==> most_columns(ls) == 0,
    decreases ls.len(),
{
    reveal(Seq::filter);
    if ls.len() > 0 {
        let before = ls.drop_last();
        law_table_size(before);
        lemma_columns_positive(ls.last());
        assert forall|i: int|
            0 <= i < ls.len() && (#[trigger] ls[i]).len() > 0 implies column_count(ls[i])
            <= most_columns(ls) by {
            if i < before.len() {
                assert(before[i] == ls[i]);
            }
        }
        if filled_rows(ls) > 0 {
            if ls.last().len() > 0 && column_count(ls.last()) > most_columns(before) {
                assert(ls[ls.len() - 1] == ls.last());
            } else {
                let i = choose|i: int|
                    0 <= i < before.len() && (#[trigger] before[i]).len() > 0 && column_count(
                        before[i],
                    ) == most_columns(before);
                assert(ls[i] == before[i]);
            }
        }
    }
}

proof fn lemma_columns_positive(line: Seq<char>)
    ensures
        column_count(line) >= 1,
    decreases line.len(),
{
    if line.len() > 0 {
        lemma_columns_positive(line.drop_last());
    }
}

/// A table is previewed by its rows and columns.
pub proof fn law_table_preview(text: Seq<char>)
    ensures
        table_preview(text) == decimal(filled_rows(lines(text))) + " rows x "@ + decimal(
            most_columns(lines(text)),
        ) + " cols"@,
{
}

/// An image is previewed by the size in its header, whichever way up it is
/// stored, and as an empty one where the header is cut off.
pub proof fn law_image_preview(dib: Seq<u8>, w: int, h: int)
    requires
        0 <= w < 0x8000_0000,
        0 <= h < 0x8000_0000,
    ensures
        dib.len() < 12 ==> image_preview(dib) == "[Image "@ + decimal(0) + "x"@ + decimal(0) + "]"@,
        dib.len() >= 12 && four_bytes(dib, 4) == w && (four_bytes(dib, 8) == h || four_bytes(dib, 8)
            == 0x1_0000_0000 - h) ==> image_preview(dib) == "[Image "@ + decimal(w as nat) + "x"@
            + decimal(h as nat) + "]"@,
        dib.len() >= 12 && w > 0 && four_bytes(dib, 4) == 0x1_0000_0000 - w && (four_bytes(dib, 8)
            == h || four_bytes(dib, 8) == 0x1_0000_0000 - h) ==> image_preview(dib) == "[Image "@
            + (seq!['-'] + decimal(w as nat)) + "x"@ + decimal(h as nat) + "]"@,
{
}

/// The item for an image holds no payload of its own. It is fingerprinted by
/// the image file, which is a PNG file of any plain bitmap and else the bitmap,
/// and has a thumbnail and a size where the bitmap can be shown.
pub proof fn law_image_item(id: u64, now: u64, dib: Seq<u8>)
    ensures
        ({
            let item = image_item_view(id, now, dib);
            &&& item.id == id && item.timestamp == now && item.kind == ItemType::Image
            &&& item.raw.len() == 0 && !item.pinned && item.lang is None
            &&& item.preview == image_preview(dib)
            &&& item.media_file == Some(media_file_names(id as nat).0)
            &&& is_plain_dib(dib) ==> item.content_hash == fnv1a(png_of_dib(dib)) && image_file(dib)
                == png_of_dib(dib)
            &&& !is_plain_dib(dib) ==> item.content_hash == fnv1a(dib) && image_file(dib) == dib
            &&& dib_bgra(dib) matches Some((_, w, h)) ==> item.thumb_file == Some(
                media_file_names(id as nat).1,
            ) && item.media_w == Some(w as u32) && item.media_h == Some(h as u32)
            &&& dib_bgra(dib) is None ==> item.thumb_file is None && item.media_w is None
                && item.media_h is None
        }),
{
}

/// Copied text becomes an item that holds its UTF-8: all of the text up to the
/// first null, of the kind that the window it comes from tells.
pub proof fn law_unicode_capture(
    id: u64,
    now: u64,
    s: Seq<char>,
    rest: Seq<u16>,
    title: Option<Seq<char>>,
)
    requires
        !s.contains('\0'),
    ensures
        ({
            let item = unicode_item(id, now, utf16(s) + seq![0u16] + rest, title);
            &&& item.raw == encode_utf8(s)
            &&& item.content_hash == fnv1a(encode_utf8(s))
            &&& (item.kind, item.preview, item.lang) == classified(s, title)
            &&& item.id == id && item.timestamp == now && !item.pinned
            &&& item == unicode_item(id, now, utf16(s), title)
        }),
{
    law_text_up_to_null(s, rest);
}

/// Copied bytes become an item that holds them as they are, up to the first
/// null; where they are UTF-8 they are shown as the text that they encode.
pub proof fn law_ansi_capture(
    id: u64,
    now: u64,
    raw: Seq<u8>,
    rest: Seq<u8>,
    title: Option<Seq<char>>,
)
    requires
        !raw.contains(0),
    ensures
        ({
            let item = ansi_item(id, now, raw + seq![0u8] + rest, title);
            &&& item.raw == raw
            &&& item.content_hash == fnv1a(raw)
            &&& valid_utf8(raw) ==> (item.kind, item.preview, item.lang) == classified(
                decode_utf8(raw),
                title,
            )
            &&& item.id == id && item.timestamp == now && !item.pinned
            &&& item == ansi_item(id, now, raw, title)
        }),
{
    law_bytes_before_null(raw, rest);
}

/// Rich text, HTML and raw spreadsheets are kept to the byte, nulls included,
/// and previewed by their text.
pub proof fn law_payload_capture(
    id: u64,
    now: u64,
    kind: ItemType,
    label: Seq<char>,
    bytes: Seq<u8>,
)
    ensures
        ({
            let item = kept_item(id, now, kind, label, bytes);
            &&& item.raw == bytes && item.kind == kind && item.lang is None
            &&& item.content_hash == fnv1a(bytes)
            &&& valid_utf8(bytes) ==> item.preview == payload_preview(
                kind,
                label,
                decode_utf8(bytes),
                bytes.len(),
            )
            &&& item.id == id && item.timestamp == now && !item.pinned
        }),
{
}

/// A table becomes an item where it has a row, with the bytes up to the first
/// null and the size of the table as its preview.
pub proof fn law_sheet_capture(id: u64, now: u64, raw: Seq<u8>, rest: Seq<u8>)
    requires
        !raw.contains(0),
        valid_utf8(raw),
    ensures
        ({
            let ls = lines(decode_utf8(raw));
            let r = sheet_item(id, now, raw + seq![0u8] + rest);
            &&& r is Some == exists|i: int| 0 <= i < ls.len() && (#[trigger] ls[i]).len() > 0
            &&& r matches Some(item) ==> item.kind == ItemType::Spreadsheet && item.raw == raw
                && item.content_hash == fnv1a(raw) && item.preview == table_preview(
                decode_utf8(raw),
            ) && item.lang is None && item.id == id && item.timestamp == now && !item.pinned
            &&& r == sheet_item(id, now, raw)
        }),
{
    law_bytes_before_null(raw, rest);
    let ls = lines(decode_utf8(raw));
    lemma_has_filled_row(ls);
}

proof fn lemma_has_filled_row(ls: Seq<Seq<char>>)
    ensures
        (filled_rows(ls) > 0) == exists|i: int| 0 <= i < ls.len() && (#[trigger] ls[i]).len() > 0,
    decreases ls.len(),
{
    if ls.len() > 0 {
        let before = ls.drop_last();
        lemma_has_filled_row(before);
        if filled_rows(before) > 0 {
            let i = choose|i: int| 0 <= i < before.len() && (#[trigger] before[i]).len() > 0;
            assert(ls[i].len() > 0);
        }
        if ls.last().len() > 0 {
            assert(ls[ls.len() - 1].len() > 0);
        } else if exists|i: int| 0 <= i < ls.len() && (#[trigger] ls[i]).len() > 0 {
            let i = choose|i: int| 0 <= i < ls.len() && (#[trigger] ls[i]).len() > 0;
            assert(before[i].len() > 0);
        }
    }
}

/// Copied files become an item where a name is left, which holds the names that
/// are not empty, one to a line.
pub proof fn law_files_capture(id: u64, now: u64, names: Seq<Seq<char>>)
    ensures
        ({
            let files = names.filter(|n: Seq<char>| n.len() > 0);
            let r = copied_files(id, now, names);
            &&& r is Some == (files.len() > 0)
            &&& r matches Some(item) ==> item.kind == ItemType::File && item.raw == encode_utf8(
                joined(files),
            ) && item.content_hash == fnv1a(item.raw) && item.preview == files_preview(files)
                && item.lang is None && item.id == id && item.timestamp == now && !item.pinned
        }),
{
    law_nonempty(names);
}

/// The thumbnail of an image is that of what is shown, with red and blue in the
/// order of a PNG file.
pub proof fn law_thumb_file(bgra: Seq<u8>, w: u32, h: u32, file: Seq<u8>)
    ensures
        thumb_file(bgra, w, h) == png_file(
            thumb_pixels(swapped(bgra), w, h),
            thumb_dims(w, h).0,
            thumb_dims(w, h).1,
        ),
        holds_thumb(file, bgra, w, h) == png_holds(
            file,
            thumb_dims(w, h).0,
            thumb_dims(w, h).1,
            thumb_pixels(swapped(bgra), w, h),
        ),
{
}

/// A list of names is the characters of each.
pub proof fn law_texts(names: Seq<String>, i: int)
    requires
        0 <= i < names.len(),
    ensures
        texts(names).len() == names.len(),
        texts(names)[i] == names[i]@,
{
}

} // verus!
