//! From items back to clipboard contents.

use vstd::prelude::*;
use vstd::utf8::*;

use crate::bytes::le32;
use crate::bytes::push_le32;
use crate::capture::{files_preview, image_file, image_item_view, joined, new_item, nonempty};
use crate::capture::{text_item_view, texts};
use crate::dib::{dib_of_png, dib_rgba, header_of, is_plain_dib, law_image_round_trip, rows_of};
use crate::dib::png_to_dib;
use crate::item::{copy_bytes, ClipItem, ItemType, RegFormats};
use crate::item::ItemView;
use crate::item::{CF_DIB, CF_HDROP, CF_TEXT, CF_UNICODETEXT};
use crate::lossy::utf8_text;
use crate::lossy::utf8_lossy;
use crate::png_io::looks_like_png;
use crate::png_io::{is_png, png_decodable, png_holds, PNG_ROW_LIMIT};
use crate::text::{find_char, from_chars, to_chars};
use crate::text::{index_from, lemma_index_from, lemma_index_from_skip};
use crate::wide::{push_utf16, push_wide_bytes, to_wide};
use crate::wide::{before_null, law_wide_bytes, law_wide_round_trip, utf16, utf16_text, wide_bytes};

verus! {

// ---------------------------------------------------------------------
// File lists.
// ---------------------------------------------------------------------
/// The parts of `s` between line breaks.
pub open spec fn pieces(s: Seq<char>) -> Seq<Seq<char>>
    decreases s.len(),
{
    proof {
        lemma_index_from(s, '\n', 0);
    }
    match index_from(s, '\n', 0) {
        None => seq![s],
        Some(k) => seq![s.take(k)] + pieces(s.skip(k + 1)),
    }
}

/// The texts that are not empty, from the front.
proof fn lemma_nonempty_front(first: Seq<char>, rest: Seq<Seq<char>>)
    ensures
        nonempty(seq![first] + rest) == if first.len() > 0 {
            seq![first] + nonempty(rest)
        } else {
            nonempty(rest)
        },
    decreases rest.len(),
{
    let all = seq![first] + rest;
    if rest.len() == 0 {
        assert(all.drop_last() =~= rest);
        assert(all.last() == first);
        assert(nonempty(all) =~= if first.len() > 0 {
            seq![first] + nonempty(rest)
        } else {
            nonempty(rest)
        });
    } else {
        assert(all.drop_last() =~= seq![first] + rest.drop_last());
        assert(all.last() == rest.last());
        lemma_nonempty_front(first, rest.drop_last());
        assert(nonempty(all) =~= if first.len() > 0 {
            seq![first] + nonempty(rest)
        } else {
            nonempty(rest)
        });
    }
}

/// The parts of `s` between line breaks that are not empty.
pub fn split_paths(s: &str) -> (r: Vec<String>)
    ensures
        texts(r@) == nonempty(pieces(s@)),
{
    let cs = to_chars(s);
    let mut out: Vec<String> = Vec::new();
    let mut i: usize = 0;
    assert(cs@.skip(0) =~= cs@);
    assert(texts(out@) + nonempty(pieces(cs@)) =~= nonempty(pieces(cs@)));
    loop
        invariant_except_break
            i <= cs@.len(),
            cs@ == s@,
            nonempty(pieces(s@)) == texts(out@) + nonempty(pieces(cs@.skip(i as int))),
        ensures
            texts(out@) == nonempty(pieces(s@)),
        decreases cs@.len() + 1 - i,
    {
        let ghost rest = cs@.skip(i as int);
        let ghost before = texts(out@);
        proof {
            lemma_index_from_skip(cs@, '\n', i as int, i as int);
        }
        let found = find_char(cs.as_slice(), '\n', i);
        let end: usize = match found {
            Some(k) => k,
            None => cs.len(),
        };
        if i < end {
            out.push(from_chars(&cs[i..end]));
            assert(texts(out@) =~= before.push(cs@.subrange(i as int, end as int)));
        }
        match found {
            None => {
                assert(rest =~= cs@.subrange(i as int, end as int));
                proof {
                    lemma_nonempty_front(rest, seq![]);
                }
                assert(seq![rest] + Seq::<Seq<char>>::empty() =~= seq![rest]);
                assert(texts(out@) =~= nonempty(pieces(s@)));
                break;
            },
            Some(k) => {
                assert(rest.take(k - i) =~= cs@.subrange(i as int, end as int));
                assert(rest.skip(k - i + 1) =~= cs@.skip(k + 1));
                proof {
                    lemma_nonempty_front(rest.take(k - i), pieces(cs@.skip(k + 1)));
                }
                assert(texts(out@) + nonempty(pieces(cs@.skip(k + 1))) =~= nonempty(pieces(s@)));
                assert(k < cs.len());
                i = k + 1;
            },
        }
    }
    out
}

/// The paths as null-terminated UTF-16, one after the other.
pub open spec fn path_units(paths: Seq<Seq<char>>) -> Seq<u16>
    decreases paths.len(),
{
    if paths.len() == 0 {
        seq![]
    } else {
        path_units(paths.drop_last()) + utf16(paths.last()).push(0)
    }
}

/// The payload that stands for a list of files: a header of 20 bytes, the
/// paths, and one null more.
pub open spec fn hdrop_blob(paths: Seq<Seq<char>>) -> Seq<u8> {
    le32(20) + le32(0) + le32(0) + le32(0) + le32(1) + wide_bytes(path_units(paths).push(0))
}

/// The payload that stands for a list of files.
pub fn build_hdrop_blob(paths: &Vec<String>) -> (r: Vec<u8>)
    ensures
        r@ == hdrop_blob(texts(paths@)),
{
    let mut units: Vec<u16> = Vec::new();
    let mut i: usize = 0;
    assert(texts(paths@).take(0) =~= seq![]);
    while i < paths.len()
        invariant
            i <= paths@.len(),
            units@ == path_units(texts(paths@).take(i as int)),
        decreases paths@.len() - i,
    {
        let ghost before = units@;
        push_utf16(&mut units, paths[i].as_str());
        units.push(0);
        assert(texts(paths@).take(i + 1).drop_last() =~= texts(paths@).take(i as int));
        assert(texts(paths@).take(i + 1).last() == paths@[i as int]@);
        assert(units@ =~= before + utf16(paths@[i as int]@).push(0));
        i += 1;
    }
    assert(texts(paths@).take(paths@.len() as int) =~= texts(paths@));
    units.push(0);
    let mut out: Vec<u8> = Vec::new();
    push_le32(&mut out, 20);
    push_le32(&mut out, 0);
    push_le32(&mut out, 0);
    push_le32(&mut out, 0);
    push_le32(&mut out, 1);
    assert(out@ =~= le32(20) + le32(0) + le32(0) + le32(0) + le32(1));
    push_wide_bytes(&mut out, units.as_slice());
    out
}

// ---------------------------------------------------------------------
// Payloads.
// ---------------------------------------------------------------------
/// Text as the clipboard takes it: UTF-16 with a null behind it.
pub open spec fn text_payload(s: Seq<char>) -> Seq<u8> {
    wide_bytes(utf16(s).push(0))
}

/// What is put on the clipboard for an item, and in which format, given the
/// text that its payload reads as and the contents of its image file. `None`
/// where there is nothing to put there.
pub open spec fn payload_of(
    item: ItemView,
    text: Seq<char>,
    reg: RegFormats,
    media: Option<Seq<u8>>,
) -> Option<(u32, Seq<u8>)> {
    match item.kind {
        ItemType::Text | ItemType::Code => Some((CF_UNICODETEXT, text_payload(text))),
        ItemType::RichText => Some((reg.rtf, item.raw)),
        ItemType::Html => Some((reg.html, item.raw)),
        ItemType::Spreadsheet => Some((CF_TEXT, item.raw)),
        ItemType::Image => match media {
            None => None,
            Some(file) => if is_png(file) {
                match dib_of_png(file) {
                    Some(dib) => Some((CF_DIB, dib)),
                    None => None,
                }
            } else {
                Some((CF_DIB, file))
            },
        },
        ItemType::File => if nonempty(pieces(text)).len() == 0 {
            None
        } else {
            Some((CF_HDROP, hdrop_blob(nonempty(pieces(text)))))
        },
    }
}

/// The contents of an optional file.
pub open spec fn bytes_of(file: Option<Vec<u8>>) -> Option<Seq<u8>> {
    match file {
        Some(f) => Some(f@),
        None => None,
    }
}

/// What is put on the clipboard for an item, given the text that its payload
/// reads as and the contents of its image file.
pub fn payload_with_text(
    item: &ClipItem,
    text: &str,
    reg: &RegFormats,
    media: &Option<Vec<u8>>,
) -> (r: Option<(u32, Vec<u8>)>)
    requires
        *media matches Some(f) ==> png_decodable(f@),
    ensures
        r is Some == payload_of(item@, text@, *reg, bytes_of(*media)) is Some,
        r matches Some((format, bytes)) ==> payload_of(item@, text@, *reg, bytes_of(*media))
            == Some((format, bytes@)),
{
    match item.kind {
        ItemType::Text | ItemType::Code => {
            let units = to_wide(text);
            let mut bytes: Vec<u8> = Vec::new();
            push_wide_bytes(&mut bytes, units.as_slice());
            assert(bytes@ =~= text_payload(text@));
            Some((CF_UNICODETEXT, bytes))
        },
        ItemType::RichText => Some((reg.rtf, copy_bytes(&item.raw))),
        ItemType::Html => Some((reg.html, copy_bytes(&item.raw))),
        ItemType::Spreadsheet => Some((CF_TEXT, copy_bytes(&item.raw))),
        ItemType::Image => match media {
            None => None,
            Some(file) => {
                if looks_like_png(file.as_slice()) {
                    match png_to_dib(file.as_slice()) {
                        Some(dib) => Some((CF_DIB, dib)),
                        None => None,
                    }
                } else {
                    Some((CF_DIB, copy_bytes(file)))
                }
            },
        },
        ItemType::File => {
            let paths = split_paths(text);
            assert(paths@.len() == nonempty(pieces(text@)).len());
            if paths.len() == 0 {
                None
            } else {
                Some((CF_HDROP, build_hdrop_blob(&paths)))
            }
        },
    }
}

/// What is put on the clipboard for an item: text in UTF-16, files as a file
/// list, images as a bitmap, everything else byte for byte as it was captured.
pub fn clipboard_payload(item: &ClipItem, reg: &RegFormats, media: &Option<Vec<u8>>) -> (r: Option<
    (u32, Vec<u8>),
>)
    requires
        *media matches Some(f) ==> png_decodable(f@),
    ensures
        r is Some == payload_of(item@, utf8_text(item.raw@), *reg, bytes_of(*media)) is Some,
        r matches Some((format, bytes)) ==> payload_of(
            item@,
            utf8_text(item.raw@),
            *reg,
            bytes_of(*media),
        ) == Some((format, bytes@)),
{
    let text = utf8_lossy(item.raw.as_slice());
    payload_with_text(item, text.as_str(), reg, media)
}

/// Text that was captured is put on the clipboard as the same text, unit for
/// unit.
pub proof fn law_text_pastes_back(
    id: u64,
    now: u64,
    s: Seq<char>,
    title: Option<Seq<char>>,
    reg: RegFormats,
    media: Option<Seq<u8>>,
)
    requires
        !s.contains('\0'),
    ensures
        ({
            let units = utf16(s).push(0);
            let read = utf16_text(before_null(units));
            let item = text_item_view(id, now, encode_utf8(read), read, title);
            &&& read == s
            &&& payload_of(item, utf8_text(item.raw), reg, media) == Some(
                (CF_UNICODETEXT, wide_bytes(units)),
            )
        }),
{
    encode_utf8_valid_utf8(s);
    encode_utf8_decode_utf8(s);
    law_wide_round_trip(s);
}

/// Rich text, HTML and tables are put on the clipboard byte for byte as they
/// were captured.
pub proof fn law_payload_pastes_verbatim(
    item: ItemView,
    text: Seq<char>,
    reg: RegFormats,
    media: Option<Seq<u8>>,
)
    requires
        item.kind == ItemType::RichText || item.kind == ItemType::Html || item.kind
            == ItemType::Spreadsheet,
    ensures
        payload_of(item, text, reg, media) matches Some((_, bytes)) && bytes == item.raw,
{
}

/// Files that were captured are put on the clipboard as the same files.
pub proof fn law_files_paste_back(
    id: u64,
    now: u64,
    files: Seq<Seq<char>>,
    reg: RegFormats,
    media: Option<Seq<u8>>,
)
    requires
        files.len() > 0,
        forall|i: int|
            0 <= i < files.len() ==> (#[trigger] files[i]).len() > 0 && !files[i].contains('\n'),
    ensures
        nonempty(files) == files,
        ({
            let item = new_item(
                id,
                now,
                ItemType::File,
                encode_utf8(joined(files)),
                files_preview(files),
                None,
            );
            &&& payload_of(item, utf8_text(item.raw), reg, media) == Some(
                (CF_HDROP, hdrop_blob(files)),
            )
        }),
{
    encode_utf8_valid_utf8(joined(files));
    encode_utf8_decode_utf8(joined(files));
    lemma_pieces_of_joined(files);
    lemma_all_nonempty(files);
}

/// An image that was captured is put on the clipboard as a bitmap with the
/// same pixels, and one of a form that is not converted byte for byte.
pub proof fn law_image_pastes_back(
    id: u64,
    now: u64,
    dib: Seq<u8>,
    text: Seq<char>,
    reg: RegFormats,
)
    requires
        is_plain_dib(dib) ==> {
            &&& rows_of(header_of(dib)) <= i32::MAX
            &&& 4 * header_of(dib).width <= PNG_ROW_LIMIT
            &&& png_holds(
                image_file(dib),
                header_of(dib).width as u32,
                rows_of(header_of(dib)) as u32,
                dib_rgba(dib),
            )
        },
        !is_plain_dib(dib) ==> !is_png(dib),
    ensures
        ({
            let item = image_item_view(id, now, dib);
            let pasted = payload_of(item, text, reg, Some(image_file(dib)));
            &&& pasted matches Some((format, bytes)) && format == CF_DIB && if is_plain_dib(dib) {
                is_plain_dib(bytes) && dib_rgba(bytes) == dib_rgba(dib)
            } else {
                bytes == dib
            }
        }),
{
    if is_plain_dib(dib) {
        law_image_round_trip(dib, image_file(dib));
    }
}

proof fn lemma_all_nonempty(files: Seq<Seq<char>>)
    requires
        forall|i: int| 0 <= i < files.len() ==> (#[trigger] files[i]).len() > 0,
    ensures
        nonempty(files) == files,
    decreases files.len(),
{
    if files.len() > 0 {
        assert forall|i: int| 0 <= i < files.drop_last().len() implies (
        #[trigger] files.drop_last()[i]).len() > 0 by {
            assert(files[i].len() > 0);
        }
        lemma_all_nonempty(files.drop_last());
        assert(files[files.len() - 1].len() > 0);
        assert(files.drop_last().push(files.last()) =~= files);
    } else {
        assert(nonempty(files) =~= files);
    }
}

/// Splitting undoes joining.
proof fn lemma_pieces_of_joined(files: Seq<Seq<char>>)
    requires
        files.len() > 0,
        forall|i: int| 0 <= i < files.len() ==> !(#[trigger] files[i]).contains('\n'),
    ensures
        pieces(joined(files)) == files,
    decreases files.len(),
{
    if files.len() == 1 {
        assert(!files[0].contains('\n'));
        lemma_pieces_of_line(files[0]);
        assert(pieces(files[0]) =~= files);
    } else {
        let front = files.drop_last();
        assert forall|i: int| 0 <= i < front.len() implies !(#[trigger] front[i]).contains(
            '\n',
        ) by {
            assert(!files[i].contains('\n'));
        }
        lemma_pieces_of_joined(front);
        assert(!files[files.len() - 1].contains('\n'));
        lemma_pieces_append(joined(front), files.last());
        assert(front.push(files.last()) =~= files);
    }
}

/// A text without line breaks is one piece.
proof fn lemma_pieces_of_line(s: Seq<char>)
    requires
        !s.contains('\n'),
    ensures
        pieces(s) == seq![s],
{
    lemma_index_from(s, '\n', 0);
}

/// A line that is put behind a text is one piece more.
proof fn lemma_pieces_append(s: Seq<char>, line: Seq<char>)
    requires
        !line.contains('\n'),
    ensures
        pieces(s + seq!['\n'] + line) == pieces(s).push(line),
    decreases s.len(),
{
    let all = s + seq!['\n'] + line;
    lemma_index_from(s, '\n', 0);
    lemma_index_from(all, '\n', 0);
    assert(all[s.len() as int] == '\n');
    match index_from(s, '\n', 0) {
        None => {
            let k = index_from(all, '\n', 0)->0;
            if k < s.len() {
                assert(s[k] == all[k]);
            }
            assert(k == s.len());
            assert(all.take(k) =~= s);
            assert(all.skip(k + 1) =~= line);
            lemma_pieces_of_line(line);
            assert(seq![s] + seq![line] =~= seq![s].push(line));
        },
        Some(k) => {
            assert(all[k] == '\n');
            let m = index_from(all, '\n', 0)->0;
            if m < k {
                assert(s[m] == all[m]);
            }
            assert(m == k);
            assert(all.take(k) =~= s.take(k));
            assert(all.skip(k + 1) =~= s.skip(k + 1) + seq!['\n'] + line);
            lemma_pieces_append(s.skip(k + 1), line);
            assert(seq![s.take(k)] + pieces(s.skip(k + 1)).push(line) =~= (seq![s.take(k)]
                + pieces(s.skip(k + 1))).push(line));
        },
    }
}

// ---------------------------------------------------------------------
// Pressing the keys.
// ---------------------------------------------------------------------
/// A key going down or up.
#[derive(Clone, Copy, Debug, PartialEq, Eq, Structural)]
pub struct KeyStroke {
    pub key: u16,
    pub up: bool,
}

/// The Ctrl key.
pub const VK_CONTROL: u16 = 0x11;

/// The V key.
pub const VK_V: u16 = 0x56;

/// The key strokes that paste: Ctrl and V down, V and Ctrl up.
pub fn paste_strokes() -> (r: Vec<KeyStroke>)
    ensures
        r@ == seq![
            KeyStroke { key: VK_CONTROL, up: false },
            KeyStroke { key: VK_V, up: false },
            KeyStroke { key: VK_V, up: true },
            KeyStroke { key: VK_CONTROL, up: true },
        ],
{
    let mut out: Vec<KeyStroke> = Vec::new();
    out.push(KeyStroke { key: VK_CONTROL, up: false });
    out.push(KeyStroke { key: VK_V, up: false });
    out.push(KeyStroke { key: VK_V, up: true });
    out.push(KeyStroke { key: VK_CONTROL, up: true });
    assert(out@ =~= seq![
        KeyStroke { key: VK_CONTROL, up: false },
        KeyStroke { key: VK_V, up: false },
        KeyStroke { key: VK_V, up: true },
        KeyStroke { key: VK_CONTROL, up: true },
    ]);
    out
}

// ---------------------------------------------------------------------
// Payloads, byte by byte.
// ---------------------------------------------------------------------
/// The format that each kind is pasted in: text and code as Unicode text, rich
/// text and HTML in their own formats, tables as text, images as bitmaps, files
/// as a list of files. All kinds but images and files can always be pasted.
pub proof fn law_pasted_formats(
    item: ItemView,
    text: Seq<char>,
    reg: RegFormats,
    media: Option<Seq<u8>>,
)
    ensures
        ({
            let r = payload_of(item, text, reg, media);
            &&& item.kind == ItemType::Text || item.kind == ItemType::Code ==> r == Some(
                (13u32, text_payload(text)),
            )
            &&& item.kind == ItemType::RichText ==> r == Some((reg.rtf, item.raw))
            &&& item.kind == ItemType::Html ==> r == Some((reg.html, item.raw))
            &&& item.kind == ItemType::Spreadsheet ==> r == Some((1u32, item.raw))
            &&& item.kind == ItemType::Image && media is None ==> r is None
            &&& item.kind == ItemType::Image ==> (media matches Some(file) ==> {
                &&& !is_png(file) ==> r == Some((8u32, file))
                &&& is_png(file) ==> r is Some == dib_of_png(file) is Some
                &&& is_png(file) ==> (dib_of_png(file) matches Some(dib) ==> r == Some((8u32, dib)))
            })
            &&& item.kind == ItemType::File ==> r is Some == (nonempty(pieces(text)).len() > 0)
            &&& item.kind == ItemType::File && r is Some ==> r == Some(
                (15u32, hdrop_blob(nonempty(pieces(text)))),
            )
        }),
{
}

/// Pasted text is its UTF-16 units, the less significant byte of each first,
/// and a null behind them.
pub proof fn law_text_payload(s: Seq<char>, i: int)
    ensures
        ({
            let bytes = text_payload(s);
            let n = utf16(s).len();
            &&& bytes.len() == 2 * n + 2
            &&& bytes[2 * n as int] == 0 && bytes[2 * n as int + 1] == 0
            &&& 0 <= i < n ==> bytes[2 * i] + 256 * bytes[2 * i + 1] == utf16(s)[i]
        }),
{
    let u = utf16(s).push(0);
    let n = utf16(s).len() as int;
    law_wide_bytes(u, n);
    if 0 <= i < n {
        law_wide_bytes(u, i);
        assert(u[i] == utf16(s)[i]);
    }
}

/// Names are parted at line breaks: one without a break is a name, and a break
/// ends the name in front of it.
pub proof fn law_pieces(a: Seq<char>, rest: Seq<char>)
    requires
        !a.contains('\n'),
    ensures
        pieces(a) == seq![a],
        pieces(a + seq!['\n'] + rest) == seq![a] + pieces(rest),
{
    lemma_pieces_of_line(a);
    crate::text::lemma_index_is(a, '\n', rest);
    let s = a + seq!['\n'] + rest;
    assert(s.take(a.len() as int) =~= a);
    assert(s.skip(a.len() as int + 1) =~= rest);
}

/// A list of files has a header of twenty bytes: its own size, three fields of
/// zeros, and a mark for UTF-16. Behind it stands each path with a null, and one
/// more null.
pub proof fn law_file_list(paths: Seq<Seq<char>>, p: Seq<char>, i: int)
    ensures
        path_units(seq![]) == Seq::<u16>::empty(),
        path_units(paths.push(p)) == path_units(paths) + utf16(p) + seq![0u16],
        ({
            let blob = hdrop_blob(paths);
            let n = path_units(paths).len();
            &&& blob.len() == 20 + 2 * n + 2
            &&& blob[0] == 20 && blob[16] == 1
            &&& (0 < i < 20 && i != 16 ==> blob[i] == 0)
            &&& 0 <= i < n ==> blob[20 + 2 * i] + 256 * blob[21 + 2 * i] == path_units(paths)[i]
            &&& blob[20 + 2 * n as int] == 0 && blob[21 + 2 * n as int] == 0
        }),
{
    assert(path_units(seq![]) =~= Seq::<u16>::empty());
    assert(paths.push(p).drop_last() =~= paths);
    assert(path_units(paths.push(p)) =~= path_units(paths) + utf16(p) + seq![0u16]);
    let head = le32(20) + le32(0) + le32(0) + le32(0) + le32(1);
    let u = path_units(paths).push(0);
    let n = path_units(paths).len() as int;
    let body = wide_bytes(u);
    let blob = hdrop_blob(paths);
    assert(blob =~= head + body);
    assert(head.len() == 20);
    assert(le32(20)[0] == 20 && le32(20)[1] == 0 && le32(20)[2] == 0 && le32(20)[3] == 0);
    assert(le32(1)[0] == 1 && le32(1)[1] == 0 && le32(1)[2] == 0 && le32(1)[3] == 0);
    assert(le32(0)[0] == 0 && le32(0)[1] == 0 && le32(0)[2] == 0 && le32(0)[3] == 0);
    law_wide_bytes(u, n);
    assert(blob[20 + 2 * n] == body[2 * n] && blob[21 + 2 * n] == body[2 * n + 1]);
    if 0 <= i < n {
        law_wide_bytes(u, i);
        assert(u[i] == path_units(paths)[i]);
        assert(blob[20 + 2 * i] == body[2 * i] && blob[21 + 2 * i] == body[2 * i + 1]);
    }
    if 0 < i < 20 && i != 16 {
        lemma_head_byte(i);
        assert(blob[i] == head[i]);
    }
}

proof fn lemma_head_byte(i: int)
    requires
        0 < i < 20,
        i != 16,
    ensures
        (le32(20) + le32(0) + le32(0) + le32(0) + le32(1))[i] == 0,
{
}

/// The keys that paste: Ctrl and V by their key codes.
pub proof fn law_paste_keys()
    ensures
        VK_CONTROL == 17,
        VK_V == 86,
{
}

} // verus!
