//! How a row is painted: its texts, its colours and where they go.

use vstd::prelude::*;
use vstd::utf8::*;

use crate::filter::item_label;
use crate::filter::{byte_offset, label_text};
use crate::filter::{char_bytes, lemma_next_offset};
use crate::geometry::{center, half, Rect};
use crate::item::{ClipItem, FilterRow, ItemType, Palette};
use crate::item::{color_of, text_of};
use crate::list::PIN_AREA_W;
use crate::preview::relative_time;
use crate::preview::{age_text, elapsed};
use crate::text::{from_chars, to_chars};

verus! {

// ---------------------------------------------------------------------
// Runs of matched and unmatched characters.
// ---------------------------------------------------------------------
/// A part of a preview in which all characters are matched, or none is.
#[derive(Clone, Debug)]
pub struct Run {
    pub text: String,
    pub matched: bool,
}

impl View for Run {
    type V = (Seq<char>, bool);

    open spec fn view(&self) -> (Seq<char>, bool) {
        (self.text@, self.matched)
    }
}

/// The runs of a list as mathematical values.
pub open spec fn run_views(runs: Seq<Run>) -> Seq<(Seq<char>, bool)> {
    runs.map_values(|r: Run| r@)
}

/// Whether each character of `s` is matched, given the byte offsets of those
/// that are.
pub open spec fn match_flags(s: Seq<char>, indices: Seq<usize>) -> Seq<bool> {
    Seq::new(s.len(), |i: int| indices.contains(byte_offset(s, i) as usize))
}

/// The end of the run that starts at `i`: the first character from there on
/// that differs.
pub open spec fn run_end(flags: Seq<bool>, i: int, flag: bool) -> int
    decreases flags.len() - i,
{
    if i < flags.len() && flags[i] == flag {
        run_end(flags, i + 1, flag)
    } else {
        i
    }
}

/// A run ends at or behind its start, and within the text.
pub proof fn lemma_run_end(flags: Seq<bool>, i: int, flag: bool)
    requires
        0 <= i <= flags.len(),
    ensures
        i <= run_end(flags, i, flag) <= flags.len(),
        forall|k: int| i <= k < run_end(flags, i, flag) ==> #[trigger] flags[k] == flag,
    decreases flags.len() - i,
{
    if i < flags.len() && flags[i] == flag {
        lemma_run_end(flags, i + 1, flag);
    }
}

/// The runs of `s` from character `i` on, as long as possible each.
pub open spec fn runs_from(s: Seq<char>, flags: Seq<bool>, i: int) -> Seq<(Seq<char>, bool)>
    decreases flags.len() - i,
{
    proof {
        if 0 <= i < flags.len() {
            lemma_run_end(flags, i + 1, flags[i]);
        }
    }
    if 0 <= i < flags.len() {
        let end = run_end(flags, i + 1, flags[i]);
        seq![(s.subrange(i, end), flags[i])] + runs_from(s, flags, end)
    } else {
        seq![]
    }
}

/// Whether `indices` holds `n`.
fn holds(indices: &Vec<usize>, n: usize) -> (r: bool)
    ensures
        r == indices@.contains(n),
{
    let mut i: usize = 0;
    while i < indices.len()
        invariant
            i <= indices@.len(),
            forall|k: int| 0 <= k < i ==> indices@[k] != n,
        decreases indices@.len() - i,
    {
        if indices[i] == n {
            return true;
        }
        i += 1;
    }
    false
}

/// Whether each character of `s` is matched.
fn flags_of(s: &str, indices: &Vec<usize>) -> (r: Vec<bool>)
    ensures
        r@ == match_flags(s@, indices@),
{
    let cs = to_chars(s);
    let total: usize = s.as_bytes().len();
    let mut out: Vec<bool> = Vec::new();
    let mut offset: usize = 0;
    let mut i: usize = 0;
    assert(s@.take(0) =~= seq![]);
    assert(encode_utf8(s@.take(0)) =~= seq![]);
    while i < cs.len()
        invariant
            i <= cs@.len(),
            cs@ == s@,
            total == encode_utf8(s@).len(),
            offset == byte_offset(s@, i as int),
            offset <= total,
            out@.len() == i,
            forall|k: int| 0 <= k < i ==> #[trigger] out@[k] == match_flags(s@, indices@)[k],
        decreases cs@.len() - i,
    {
        out.push(holds(indices, offset));
        proof {
            lemma_next_offset(s@, i as int);
        }
        offset += char_bytes(cs[i]);
        i += 1;
    }
    assert(out@ =~= match_flags(s@, indices@));
    out
}

/// The runs of a preview, given the byte offsets of its matched characters.
pub fn preview_runs(s: &str, indices: &Vec<usize>) -> (r: Vec<Run>)
    ensures
        run_views(r@) == runs_from(s@, match_flags(s@, indices@), 0),
{
    let cs = to_chars(s);
    let flags = flags_of(s, indices);
    let mut out: Vec<Run> = Vec::new();
    let mut i: usize = 0;
    assert(run_views(out@) + runs_from(s@, flags@, 0) =~= runs_from(s@, flags@, 0));
    while i < cs.len()
        invariant
            i <= cs@.len(),
            cs@ == s@,
            flags@.len() == cs@.len(),
            flags@ == match_flags(s@, indices@),
            runs_from(s@, flags@, 0) == run_views(out@) + runs_from(s@, flags@, i as int),
        decreases cs@.len() - i,
    {
        let flag = flags[i];
        let ghost before = run_views(out@);
        proof {
            lemma_run_end(flags@, i + 1, flag);
        }
        let mut end: usize = i + 1;
        while end < cs.len() && flags[end] == flag
            invariant
                i < end <= cs@.len(),
                flags@.len() == cs@.len(),
                run_end(flags@, i + 1, flag) == run_end(flags@, end as int, flag),
            decreases cs@.len() - end,
        {
            end += 1;
        }
        let run = Run { text: from_chars(&cs[i..end]), matched: flag };
        let ghost added = run@;
        out.push(run);
        assert(run_views(out@) =~= before.push(added));
        assert(before.push(added) + runs_from(s@, flags@, end as int) =~= before + (seq![added]
            + runs_from(s@, flags@, end as int)));
        i = end;
    }
    assert(run_views(out@) + runs_from(s@, flags@, i as int) =~= run_views(out@));
    out
}

/// The texts of runs one after the other.
pub open spec fn run_text(runs: Seq<(Seq<char>, bool)>) -> Seq<char>
    decreases runs.len(),
{
    if runs.len() == 0 {
        seq![]
    } else {
        runs[0].0 + run_text(runs.skip(1))
    }
}

/// The runs of a preview make up the preview.
pub proof fn law_runs_make_up_text(s: Seq<char>, flags: Seq<bool>, i: int)
    requires
        flags.len() == s.len(),
        0 <= i <= s.len(),
    ensures
        run_text(runs_from(s, flags, i)) == s.skip(i),
    decreases s.len() - i,
{
    if i < s.len() {
        lemma_run_end(flags, i + 1, flags[i]);
        let end = run_end(flags, i + 1, flags[i]);
        let rest = runs_from(s, flags, end);
        law_runs_make_up_text(s, flags, end);
        let all = runs_from(s, flags, i);
        assert(all.skip(1) =~= rest);
        assert(s.subrange(i, end) + s.skip(end) =~= s.skip(i));
    } else {
        assert(s.skip(i) =~= seq![]);
    }
}

/// Where nothing is matched, a preview is one run.
pub proof fn law_no_match_one_run(s: Seq<char>)
    requires
        s.len() > 0,
    ensures
        runs_from(s, match_flags(s, seq![]), 0) == seq![(s, false)],
{
    let flags = match_flags(s, seq![]);
    assert forall|i: int| 0 <= i < flags.len() implies #[trigger] flags[i] == false by {}
    lemma_run_end(flags, 1, false);
    let end = run_end(flags, 1, false);
    if end < flags.len() {
        lemma_run_end_stops(flags, 1, false);
    }
    assert(s.subrange(0, end) =~= s);
    assert(runs_from(s, flags, end) =~= seq![]);
    assert(seq![(s, false)] + Seq::<(Seq<char>, bool)>::empty() =~= seq![(s, false)]);
}

/// A run ends where the next character differs.
proof fn lemma_run_end_stops(flags: Seq<bool>, i: int, flag: bool)
    requires
        0 <= i <= flags.len(),
        run_end(flags, i, flag) < flags.len(),
    ensures
        flags[run_end(flags, i, flag)] != flag,
    decreases flags.len() - i,
{
    if i < flags.len() && flags[i] == flag {
        lemma_run_end_stops(flags, i + 1, flag);
    }
}

// ---------------------------------------------------------------------
// Texts and colours.
// ---------------------------------------------------------------------
/// The star of a pinned item.
pub const PIN_GLYPH_PINNED: char = '\u{2605}';

/// The star of any other item.
pub const PIN_GLYPH_UNPINNED: char = '\u{2606}';

/// What a row shows, and in which colours.
#[derive(Clone, Debug)]
pub struct RowPlan {
    pub label: String,
    pub label_color: u32,
    /// The preview; an image shows its thumbnail instead.
    pub runs: Vec<Run>,
    pub runs_color: u32,
    pub thumbnail: bool,
    pub age: String,
    pub age_color: u32,
    pub glyph: char,
    pub glyph_color: u32,
}

/// The preview text that a row shows.
pub open spec fn shown_preview(item: ClipItem) -> Seq<char> {
    if item.kind == ItemType::Image {
        seq![]
    } else {
        item.preview@
    }
}

/// The colour of the star of a row.
pub open spec fn pin_color(pinned: bool, selected: bool, pal: Palette) -> u32 {
    if pinned {
        pal.accent
    } else if selected {
        pal.text
    } else {
        pal.pin_dim
    }
}

/// The colour of the age.
pub open spec fn age_color_of(selected: bool, pal: Palette) -> u32 {
    if selected {
        pal.text
    } else {
        pal.subtext
    }
}

/// The star of an item.
pub open spec fn star_of(pinned: bool) -> char {
    if pinned {
        PIN_GLYPH_PINNED
    } else {
        PIN_GLYPH_UNPINNED
    }
}

/// What a row shows, and in which colours.
pub fn plan_row(item: &ClipItem, row: &FilterRow, pal: &Palette, selected: bool, now: u64) -> (r:
    RowPlan)
    ensures
        r.label@ == label_text(item.kind, text_of(item.lang)),
        r.label_color == color_of(item.kind, *pal),
        run_views(r.runs@) == runs_from(
            shown_preview(*item),
            match_flags(shown_preview(*item), row.indices@),
            0,
        ),
        r.runs_color == pal.text,
        r.thumbnail == (item.kind == ItemType::Image),
        r.age@ == age_text(elapsed(now, item.timestamp)),
        r.age_color == if selected {
            pal.text
        } else {
            pal.subtext
        },
        r.glyph == if item.pinned {
            PIN_GLYPH_PINNED
        } else {
            PIN_GLYPH_UNPINNED
        },
        r.glyph_color == pin_color(item.pinned, selected, *pal),
        r.age_color == age_color_of(selected, *pal),
        r.glyph == star_of(item.pinned),
{
    let thumbnail = item.kind == ItemType::Image;
    let runs: Vec<Run> = if thumbnail {
        let none: Vec<Run> = Vec::new();
        assert(run_views(none@) =~= runs_from(
            shown_preview(*item),
            match_flags(shown_preview(*item), row.indices@),
            0,
        ));
        none
    } else {
        preview_runs(item.preview.as_str(), &row.indices)
    };
    RowPlan {
        label: item_label(item),
        label_color: item.kind.tag_color(pal),
        runs,
        runs_color: pal.text,
        thumbnail,
        age: relative_time(now, item.timestamp),
        age_color: if selected {
            pal.text
        } else {
            pal.subtext
        },
        glyph: if item.pinned {
            PIN_GLYPH_PINNED
        } else {
            PIN_GLYPH_UNPINNED
        },
        glyph_color: if item.pinned {
            pal.accent
        } else if selected {
            pal.text
        } else {
            pal.pin_dim
        },
    }
}

// ---------------------------------------------------------------------
// Places.
// ---------------------------------------------------------------------
/// The space at the left edge of a row.
pub const ROW_PAD: i32 = 12;

/// The space between two columns.
pub const COL_GAP: i32 = 10;

/// The edge of a thumbnail in a row.
pub const THUMB_SIZE: i32 = 68;

/// The measured widths of the texts of a row, and the height of its font.
#[derive(Clone, Copy, Debug, PartialEq, Eq, Structural)]
pub struct RowMeasures {
    pub font_h: i32,
    pub label_w: i32,
    pub age_w: i32,
    pub glyph_w: i32,
}

/// Where the parts of a row go.
#[derive(Clone, Copy, Debug, PartialEq, Eq, Structural)]
pub struct RowLayout {
    pub text_y: i64,
    pub label_x: i64,
    pub thumb_x: i64,
    pub thumb_y: i64,
    /// The preview is clipped to this rectangle.
    pub preview: Rect,
    pub age_x: i64,
    pub glyph_x: i64,
}

/// The larger of two numbers.
pub open spec fn larger(a: int, b: int) -> int {
    if a >= b {
        a
    } else {
        b
    }
}

/// The left edge of the preview of a row.
pub open spec fn preview_left(rc: Rect, m: RowMeasures, thumbnail: bool) -> int {
    rc.left + ROW_PAD + m.label_w + COL_GAP + if thumbnail {
        THUMB_SIZE + COL_GAP
    } else {
        0
    }
}

/// The left edge of the age of a row: in front of the star, but not over the
/// label.
pub open spec fn age_left(rc: Rect, m: RowMeasures, thumbnail: bool) -> int {
    larger(rc.right - PIN_AREA_W - COL_GAP - m.age_w, preview_left(rc, m, thumbnail))
}

/// Where the parts of a row go.
pub open spec fn row_layout(rc: Rect, m: RowMeasures, thumbnail: bool) -> RowLayout {
    let left = preview_left(rc, m, thumbnail);
    let age = age_left(rc, m, thumbnail);
    RowLayout {
        text_y: (rc.top + half(rc.bottom - rc.top - m.font_h)) as i64,
        label_x: (rc.left + ROW_PAD) as i64,
        thumb_x: (rc.left + ROW_PAD + m.label_w + COL_GAP) as i64,
        thumb_y: (rc.top + half(rc.bottom - rc.top - THUMB_SIZE)) as i64,
        preview: Rect {
            left: left as i64,
            top: rc.top,
            right: larger(age - COL_GAP, left) as i64,
            bottom: rc.bottom,
        },
        age_x: age as i64,
        glyph_x: (rc.right - PIN_AREA_W + half(PIN_AREA_W - m.glyph_w)) as i64,
    }
}

/// Where the parts of a row go: label, thumbnail, preview, age and star, from
/// left to right.
pub fn layout_row(rc: &Rect, m: &RowMeasures, thumbnail: bool) -> (r: RowLayout)
    requires
        rc.small(),
    ensures
        r.text_y == rc.top + half(rc.bottom - rc.top - m.font_h),
        r.label_x == rc.left + ROW_PAD,
        r.thumb_x == rc.left + ROW_PAD + m.label_w + COL_GAP,
        r.thumb_y == rc.top + half(rc.bottom - rc.top - THUMB_SIZE),
        r.preview.left == preview_left(*rc, *m, thumbnail),
        r.preview.right == larger(
            age_left(*rc, *m, thumbnail) - COL_GAP,
            preview_left(*rc, *m, thumbnail),
        ),
        r.preview.top == rc.top,
        r.preview.bottom == rc.bottom,
        r.age_x == age_left(*rc, *m, thumbnail),
        r.glyph_x == rc.right - PIN_AREA_W + half(PIN_AREA_W - m.glyph_w),
        r == row_layout(*rc, *m, thumbnail),
{
    let row_h: i64 = rc.bottom - rc.top;
    let text_y: i64 = rc.top + center(row_h, m.font_h as i64);
    let label_x: i64 = rc.left + ROW_PAD as i64;
    let thumb_x: i64 = label_x + m.label_w as i64 + COL_GAP as i64;
    let thumb_y: i64 = rc.top + center(row_h, THUMB_SIZE as i64);
    let left: i64 = if thumbnail {
        thumb_x + THUMB_SIZE as i64 + COL_GAP as i64
    } else {
        thumb_x
    };
    let pin_left: i64 = rc.right - PIN_AREA_W as i64;
    let age_free: i64 = pin_left - COL_GAP as i64 - m.age_w as i64;
    let age_x: i64 = if age_free >= left {
        age_free
    } else {
        left
    };
    let right_free: i64 = age_x - COL_GAP as i64;
    let right: i64 = if right_free >= left {
        right_free
    } else {
        left
    };
    RowLayout {
        text_y,
        label_x,
        thumb_x,
        thumb_y,
        preview: Rect { left, top: rc.top, right, bottom: rc.bottom },
        age_x,
        glyph_x: pin_left + center(PIN_AREA_W as i64, m.glyph_w as i64),
    }
}

/// The preview never runs into the age, nor to the left of its own start.
pub proof fn law_row_columns(rc: Rect, m: RowMeasures, thumbnail: bool)
    requires
        rc.small(),
    ensures
        ({
            let left = preview_left(rc, m, thumbnail);
            let age = age_left(rc, m, thumbnail);
            let right = larger(age - COL_GAP, left);
            &&& left <= right
            &&& right <= age
            &&& age >= left + COL_GAP ==> right == age - COL_GAP
        }),
{
}

// ---------------------------------------------------------------------
// Runs and columns.
// ---------------------------------------------------------------------
/// A character is marked where the number of bytes in front of it is among the
/// indices of the row.
pub proof fn law_marked_chars(s: Seq<char>, indices: Seq<usize>, i: int)
    requires
        0 <= i < s.len(),
        encode_utf8(s).len() <= usize::MAX,
    ensures
        match_flags(s, indices).len() == s.len(),
        match_flags(s, indices)[i] == exists|k: int|
            0 <= k < indices.len() && #[trigger] indices[k] == encode_utf8(s.take(i)).len(),
{
    lemma_next_offset(s, i);
    let n = byte_offset(s, i) as usize;
    assert(n == encode_utf8(s.take(i)).len());
    if indices.contains(n) {
        let k = choose|k: int| 0 <= k < indices.len() && indices[k] == n;
        assert(indices[k] == encode_utf8(s.take(i)).len());
    }
    if exists|k: int|
        0 <= k < indices.len() && #[trigger] indices[k] == encode_utf8(s.take(i)).len() {
        let k = choose|k: int|
            0 <= k < indices.len() && #[trigger] indices[k] == encode_utf8(s.take(i)).len();
        assert(indices[k] == n);
    }
}

/// The marks that runs stand for, character by character.
pub open spec fn run_flags(runs: Seq<(Seq<char>, bool)>) -> Seq<bool>
    decreases runs.len(),
{
    if runs.len() == 0 {
        seq![]
    } else {
        Seq::new(runs[0].0.len(), |i: int| runs[0].1) + run_flags(runs.skip(1))
    }
}

/// Runs mark exactly the characters that are marked, no run is empty, and
/// marked and unmarked runs take turns.
pub proof fn law_runs_keep_marks(s: Seq<char>, flags: Seq<bool>, i: int)
    requires
        flags.len() == s.len(),
        0 <= i <= s.len(),
    ensures
        run_flags(runs_from(s, flags, i)) == flags.skip(i),
        forall|k: int| 0 <= k < runs_from(s, flags, i).len() ==> (#[trigger] runs_from(
            s,
            flags,
            i,
        )[k]).0.len() > 0,
        forall|k: int|
            0 <= k < runs_from(s, flags, i).len() - 1 ==> (#[trigger] runs_from(s, flags, i)[k]).1
                != runs_from(s, flags, i)[k + 1].1,
        i < s.len() ==> runs_from(s, flags, i).len() > 0 && runs_from(s, flags, i)[0].1 == flags[i],
    decreases s.len() - i,
{
    let all = runs_from(s, flags, i);
    if i < s.len() {
        lemma_run_end(flags, i + 1, flags[i]);
        let end = run_end(flags, i + 1, flags[i]);
        let rest = runs_from(s, flags, end);
        law_runs_keep_marks(s, flags, end);
        assert(all.skip(1) =~= rest);
        let first = Seq::new(all[0].0.len(), |k: int| all[0].1);
        assert(first =~= flags.subrange(i, end));
        assert(flags.subrange(i, end) + flags.skip(end) =~= flags.skip(i));
        assert forall|k: int| 0 <= k < all.len() implies (#[trigger] all[k]).0.len() > 0 by {
            if k > 0 {
                assert(all[k] == rest[k - 1]);
            }
        }
        if end < s.len() {
            lemma_run_end_stops(flags, i + 1, flags[i]);
        }
        assert forall|k: int| 0 <= k < all.len() - 1 implies (#[trigger] all[k]).1 != all[k
            + 1].1 by {
            assert(all[k + 1] == rest[k]);
            if k > 0 {
                assert(all[k] == rest[k - 1]);
            }
        }
    } else {
        assert(run_flags(all) =~= flags.skip(i));
    }
}

/// Images show no text, and all other items their preview. The star is filled
/// where the item is pinned, and then in the accent colour; an empty one is as
/// bright as text on the selected row and dim elsewhere.
pub proof fn law_row_parts(item: ClipItem, pal: Palette, selected: bool)
    ensures
        item.kind == ItemType::Image ==> shown_preview(item).len() == 0,
        item.kind != ItemType::Image ==> shown_preview(item) == item.preview@,
        pin_color(true, selected, pal) == pal.accent,
        pin_color(false, true, pal) == pal.text,
        pin_color(false, false, pal) == pal.pin_dim,
        PIN_GLYPH_PINNED as u32 == 0x2605,
        PIN_GLYPH_UNPINNED as u32 == 0x2606,
{
}

/// The columns of a row in pixels: the label 12 from the left, what follows it
/// 10 behind it, a thumbnail 68 wide; the age ends 10 in front of the pin, which
/// takes the last 22, unless that would put it over the label or the thumbnail.
pub proof fn law_row_pixels(rc: Rect, m: RowMeasures)
    ensures
        preview_left(rc, m, false) == rc.left + m.label_w + 22,
        preview_left(rc, m, true) == rc.left + m.label_w + 100,
        rc.right - 32 - m.age_w >= rc.left + m.label_w + 22 ==> age_left(rc, m, false) + m.age_w
            == rc.right - 32,
        rc.right - 32 - m.age_w < rc.left + m.label_w + 22 ==> age_left(rc, m, false) == rc.left
            + m.label_w + 22,
        rc.right - 32 - m.age_w >= rc.left + m.label_w + 100 ==> age_left(rc, m, true) + m.age_w
            == rc.right - 32,
        rc.right - 32 - m.age_w < rc.left + m.label_w + 100 ==> age_left(rc, m, true) == rc.left
            + m.label_w + 100,
        ROW_PAD == 12,
        COL_GAP == 10,
        THUMB_SIZE == 68,
        PIN_AREA_W == 22,
{
}

/// The larger of two numbers is one of them and below neither.
pub proof fn law_larger(a: int, b: int)
    ensures
        larger(a, b) >= a && larger(a, b) >= b,
        larger(a, b) == a || larger(a, b) == b,
{
}

/// A run is its text and its mark.
pub proof fn law_run_is_its_fields(run: Run, runs: Seq<Run>, i: int)
    requires
        0 <= i < runs.len(),
    ensures
        run@ == (run.text@, run.matched),
        run_views(runs).len() == runs.len() && run_views(runs)[i] == runs[i]@,
{
}

/// The star is filled where the item is pinned, and the age is as bright as text
/// on the selected row.
pub proof fn law_star_and_age(pal: Palette)
    ensures
        star_of(true) == '\u{2605}',
        star_of(false) == '\u{2606}',
        age_color_of(true, pal) == pal.text,
        age_color_of(false, pal) == pal.subtext,
{
}

/// Text, thumbnail and star are centred: what is above them and below them, or
/// beside the star in the last 22 pixels, differs by a pixel at most. The
/// preview takes the height of the row, and ends 10 in front of the age where
/// there is room for that.
pub proof fn law_row_layout(rc: Rect, m: RowMeasures, thumbnail: bool)
    requires
        rc.small(),
        0 <= m.font_h <= rc.bottom - rc.top,
        68 <= rc.bottom - rc.top,
        0 <= m.glyph_w <= 22,
    ensures
        ({
            let l = row_layout(rc, m, thumbnail);
            &&& l.text_y - rc.top <= rc.bottom - (l.text_y + m.font_h) <= l.text_y - rc.top + 1
            &&& l.thumb_y - rc.top <= rc.bottom - (l.thumb_y + 68) <= l.thumb_y - rc.top + 1
            &&& l.glyph_x - (rc.right - 22) <= rc.right - (l.glyph_x + m.glyph_w) <= l.glyph_x - (
            rc.right - 22) + 1
            &&& l.label_x == rc.left + 12
            &&& l.thumb_x == rc.left + 22 + m.label_w
            &&& l.preview.top == rc.top && l.preview.bottom == rc.bottom
            &&& l.preview.left == preview_left(rc, m, thumbnail)
            &&& l.age_x == age_left(rc, m, thumbnail)
            &&& l.age_x >= l.preview.left + 10 ==> l.preview.right == l.age_x - 10
            &&& l.age_x < l.preview.left + 10 ==> l.preview.right == l.preview.left
        }),
{
}

} // verus!
