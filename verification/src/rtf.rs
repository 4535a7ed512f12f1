//! The visible text of a Rich Text Format document, for previews.
//!
//! A document is read as a byte stream. Control words, control symbols and
//! destination groups that hold no text (font tables, pictures and the like)
//! are left out; paragraph marks, tabs, escaped characters and `\uN`
//! characters come out as text.

use vstd::prelude::*;
use vstd::utf8::*;

use crate::lossy::{utf8_lossy, utf8_text};
use crate::text::{lemma_encode_concat, number, scalar_char};
use crate::text::{read_number, spells};

verus! {

/// An ASCII letter.
pub open spec fn is_alpha(b: u8) -> bool {
    65 <= b <= 90 || 97 <= b <= 122
}

/// An ASCII digit.
pub open spec fn is_digit(b: u8) -> bool {
    48 <= b <= 57
}

fn alpha(b: u8) -> (r: bool)
    ensures
        r == is_alpha(b),
{
    (65 <= b && b <= 90) || (97 <= b && b <= 122)
}

fn digit(b: u8) -> (r: bool)
    ensures
        r == is_digit(b),
{
    48 <= b && b <= 57
}

/// Each byte taken as the character with that number.
pub open spec fn as_chars(b: Seq<u8>) -> Seq<char> {
    b.map_values(|x: u8| x as char)
}

/// The value of a hexadecimal digit.
pub open spec fn hex_value(b: u8) -> Option<u8> {
    if 48 <= b <= 57 {
        Some((b - 48) as u8)
    } else if 97 <= b <= 102 {
        Some((b - 87) as u8)
    } else if 65 <= b <= 70 {
        Some((b - 55) as u8)
    } else {
        None
    }
}

/// The value of a hexadecimal digit.
pub fn hex_digit(b: u8) -> (r: Option<u8>)
    ensures
        r == hex_value(b),
{
    if 48 <= b && b <= 57 {
        Some(b - 48)
    } else if 97 <= b && b <= 102 {
        Some(b - 87)
    } else if 65 <= b && b <= 70 {
        Some(b - 55)
    } else {
        None
    }
}

// ---------------------------------------------------------------------
// Destination groups.
// ---------------------------------------------------------------------
/// Whether `after` starts with the control word `name`: a backslash, the
/// name, and no further letter.
pub open spec fn starts_with_ctrl(after: Seq<u8>, name: Seq<char>) -> bool {
    &&& after.len() >= 1 + name.len()
    &&& after[0] == 92
    &&& as_chars(after.subrange(1, name.len() as int + 1)) == name
    &&& after.len() == 1 + name.len() || !is_alpha(after[name.len() as int + 1])
}

/// Whether a group that goes on with `after` holds no visible text.
pub open spec fn is_destination(after: Seq<u8>) -> bool {
    ||| after.len() >= 2 && after[0] == 92 && after[1] == 42
    ||| starts_with_ctrl(after, "fonttbl"@)
    ||| starts_with_ctrl(after, "colortbl"@)
    ||| starts_with_ctrl(after, "stylesheet"@)
    ||| starts_with_ctrl(after, "info"@)
    ||| starts_with_ctrl(after, "pict"@)
    ||| starts_with_ctrl(after, "object"@)
    ||| starts_with_ctrl(after, "listtable"@)
    ||| starts_with_ctrl(after, "listoverridetable"@)
    ||| starts_with_ctrl(after, "rsidtbl"@)
    ||| starts_with_ctrl(after, "generator"@)
    ||| starts_with_ctrl(after, "themedata"@)
    ||| starts_with_ctrl(after, "datastore"@)
    ||| starts_with_ctrl(after, "latentstyles"@)
    ||| starts_with_ctrl(after, "xmlnstbl"@)
    ||| starts_with_ctrl(after, "revtbl"@)
}

/// The bytes `b[from..to]` as characters.
fn chars_of(b: &[u8], from: usize, to: usize) -> (r: Vec<char>)
    requires
        from <= to <= b@.len(),
    ensures
        r@ == as_chars(b@.subrange(from as int, to as int)),
{
    let mut out: Vec<char> = Vec::new();
    let mut i: usize = from;
    while i < to
        invariant
            from <= i <= to <= b@.len(),
            out@ == as_chars(b@.subrange(from as int, i as int)),
        decreases to - i,
    {
        out.push(b[i] as char);
        assert(out@ =~= as_chars(b@.subrange(from as int, i + 1)));
        i += 1;
    }
    out
}

/// Whether the bytes from `i` on start with the control word `name`.
pub fn rtf_starts_with_ctrl(b: &[u8], i: usize, name: &str) -> (r: bool)
    requires
        i <= b@.len(),
    ensures
        r == starts_with_ctrl(b@.skip(i as int), name@),
{
    let n: usize = name.unicode_len();
    let left: usize = b.len() - i;
    if left == 0 || left - 1 < n || b[i] != 92 {
        return false;
    }
    let word = chars_of(b, i + 1, i + 1 + n);
    assert(b@.subrange(i + 1, i + 1 + n) == b@.skip(i as int).subrange(1, 1 + n));
    if !spells(&word, name) {
        return false;
    }
    left == 1 + n || !alpha(b[i + 1 + n])
}

/// Whether a group that goes on at index `i` holds no visible text.
fn destination_at(b: &[u8], i: usize) -> (r: bool)
    requires
        i <= b@.len(),
    ensures
        r == is_destination(b@.skip(i as int)),
{
    (b.len() - i >= 2 && b[i] == 92 && b[i + 1] == 42) || rtf_starts_with_ctrl(b, i, "fonttbl")
        || rtf_starts_with_ctrl(b, i, "colortbl") || rtf_starts_with_ctrl(b, i, "stylesheet")
        || rtf_starts_with_ctrl(b, i, "info") || rtf_starts_with_ctrl(b, i, "pict")
        || rtf_starts_with_ctrl(b, i, "object") || rtf_starts_with_ctrl(b, i, "listtable")
        || rtf_starts_with_ctrl(b, i, "listoverridetable") || rtf_starts_with_ctrl(b, i, "rsidtbl")
        || rtf_starts_with_ctrl(b, i, "generator") || rtf_starts_with_ctrl(b, i, "themedata")
        || rtf_starts_with_ctrl(b, i, "datastore") || rtf_starts_with_ctrl(b, i, "latentstyles")
        || rtf_starts_with_ctrl(b, i, "xmlnstbl") || rtf_starts_with_ctrl(b, i, "revtbl")
}

// ---------------------------------------------------------------------
// Control words.
// ---------------------------------------------------------------------
/// The end of the run of letters from `i` on.
pub open spec fn alpha_end(b: Seq<u8>, i: int) -> int
    decreases b.len() - i,
{
    if 0 <= i < b.len() && is_alpha(b[i]) {
        alpha_end(b, i + 1)
    } else {
        i
    }
}

/// The end of the run of digits from `i` on.
pub open spec fn digit_end(b: Seq<u8>, i: int) -> int
    decreases b.len() - i,
{
    if 0 <= i < b.len() && is_digit(b[i]) {
        digit_end(b, i + 1)
    } else {
        i
    }
}

/// The value of a control word's parameter: an optional minus sign and
/// decimal digits, if there is a digit and the value fits in 32 bits.
pub open spec fn param_value(p: Seq<u8>) -> Option<int> {
    let neg = p.len() > 0 && p[0] == 45;
    let digits = (if neg {
        p.skip(1)
    } else {
        p
    }).map_values(|b: u8| (b - 48) as u8);
    let v = if neg {
        -(number(digits, 10) as int)
    } else {
        number(digits, 10) as int
    };
    if digits.len() > 0 && -0x8000_0000 <= v <= 0x7fff_ffff {
        Some(v)
    } else {
        None
    }
}

/// A control word: its name, its parameter, and the index after it.
pub struct CtrlWord {
    pub name: Seq<char>,
    pub param: Option<int>,
    pub end: int,
}

/// The control word whose name starts at `i`. One space after it is part of
/// it.
pub open spec fn ctrl_word(b: Seq<u8>, i: int) -> CtrlWord {
    let j = alpha_end(b, i);
    let has_param = j < b.len() && (b[j] == 45 || is_digit(b[j]));
    let k = if has_param {
        digit_end(
            b,
            if b[j] == 45 {
                j + 1
            } else {
                j
            },
        )
    } else {
        j
    };
    CtrlWord {
        name: as_chars(b.subrange(i, j)),
        param: if has_param {
            param_value(b.subrange(j, k))
        } else {
            None
        },
        end: if k < b.len() && b[k] == 32 {
            k + 1
        } else {
            k
        },
    }
}

/// The index after at most `n` bytes from `j` on that are plain text.
pub open spec fn after_substitutes(b: Seq<u8>, j: int, n: int) -> int
    decreases n,
{
    if n > 0 && 0 <= j < b.len() && b[j] != 92 && b[j] != 123 && b[j] != 125 {
        after_substitutes(b, j + 1, n - 1)
    } else {
        j
    }
}

/// The character that `\uN` stands for: negative numbers count down from
/// 65536.
pub open spec fn unicode_param(p: int) -> Option<char> {
    let n = if p < 0 {
        p + 65536
    } else {
        p
    };
    if n < 0 {
        None
    } else {
        scalar_char(n as nat)
    }
}

proof fn lemma_run_ends(b: Seq<u8>, i: int)
    requires
        0 <= i <= b.len(),
    ensures
        i <= alpha_end(b, i) <= b.len(),
        i <= digit_end(b, i) <= b.len(),
        forall|k: int| i <= k < digit_end(b, i) ==> is_digit(#[trigger] b[k]),
    decreases b.len() - i,
{
    if i < b.len() {
        lemma_run_ends(b, i + 1);
    }
}

proof fn lemma_substitutes_end(b: Seq<u8>, j: int, n: int)
    requires
        0 <= j <= b.len(),
    ensures
        j <= after_substitutes(b, j, n) <= b.len(),
    decreases n,
{
    if n > 0 && j < b.len() && b[j] != 92 && b[j] != 123 && b[j] != 125 {
        lemma_substitutes_end(b, j + 1, n - 1);
    }
}

/// A control word ends after its first letter.
proof fn lemma_ctrl_word_end(b: Seq<u8>, i: int)
    requires
        0 <= i < b.len(),
        is_alpha(b[i]),
    ensures
        i < alpha_end(b, i) <= ctrl_word(b, i).end <= b.len(),
{
    lemma_run_ends(b, i + 1);
    let j = alpha_end(b, i);
    if j < b.len() {
        lemma_run_ends(b, j);
        lemma_run_ends(b, j + 1);
    }
}

/// The value of the parameter `b[from..to]`.
fn read_param(b: &[u8], from: usize, to: usize) -> (r: Option<i32>)
    requires
        from < to <= b@.len(),
        b@[from as int] == 45 || is_digit(b@[from as int]),
        forall|k: int| from < k < to ==> is_digit(#[trigger] b@[k]),
    ensures
        r is Some == param_value(b@.subrange(from as int, to as int)) is Some,
        r matches Some(v) ==> param_value(b@.subrange(from as int, to as int)) == Some(v as int),
{
    let ghost p = b@.subrange(from as int, to as int);
    let neg: bool = b[from] == 45;
    let start: usize = if neg {
        from + 1
    } else {
        from
    };
    let mut digits: Vec<u8> = Vec::new();
    let mut i: usize = start;
    while i < to
        invariant
            start <= i <= to <= b@.len(),
            from <= start <= from + 1,
            start == from ==> is_digit(b@[from as int]),
            forall|k: int| from < k < to ==> is_digit(#[trigger] b@[k]),
            digits@ == b@.subrange(start as int, i as int).map_values(|x: u8| (x - 48) as u8),
        decreases to - i,
    {
        assert(is_digit(b@[i as int]));
        digits.push(b[i] - 48);
        assert(digits@ =~= b@.subrange(start as int, i + 1).map_values(|x: u8| (x - 48) as u8));
        i += 1;
    }
    assert((if neg {
        p.skip(1)
    } else {
        p
    }) =~= b@.subrange(start as int, to as int));
    if digits.len() == 0 {
        return None;
    }
    let v: u128 = read_number(&digits, 10);
    if neg {
        if v > 0x8000_0000 {
            None
        } else {
            Some((0 - (v as i64)) as i32)
        }
    } else {
        if v > 0x7fff_ffff {
            None
        } else {
            Some(v as i32)
        }
    }
}

/// The control word whose name starts at `i`: where its name ends, its
/// parameter, and where the whole word ends.
fn read_ctrl_word(b: &[u8], i: usize) -> (r: (usize, Option<i32>, usize))
    requires
        i < b@.len(),
        is_alpha(b@[i as int]),
    ensures
        i < r.0 <= r.2 <= b@.len(),
        as_chars(b@.subrange(i as int, r.0 as int)) == ctrl_word(b@, i as int).name,
        r.1 is Some == ctrl_word(b@, i as int).param is Some,
        r.1 matches Some(p) ==> ctrl_word(b@, i as int).param == Some(p as int),
        r.2 == ctrl_word(b@, i as int).end,
{
    proof {
        lemma_ctrl_word_end(b@, i as int);
    }
    let mut j: usize = i;
    while j < b.len() && alpha(b[j])
        invariant
            i <= j <= b@.len(),
            alpha_end(b@, i as int) == alpha_end(b@, j as int),
        decreases b@.len() - j,
    {
        j += 1;
    }
    let name_end: usize = j;
    assert(name_end == alpha_end(b@, i as int));
    let mut param: Option<i32> = None;
    if j < b.len() && (b[j] == 45 || digit(b[j])) {
        if b[j] == 45 {
            j += 1;
        }
        let first: usize = j;
        proof {
            lemma_run_ends(b@, first as int);
            if first < b@.len() {
                lemma_run_ends(b@, first + 1);
            }
        }
        while j < b.len() && digit(b[j])
            invariant
                first <= j <= b@.len(),
                digit_end(b@, first as int) == digit_end(b@, j as int),
            decreases b@.len() - j,
        {
            j += 1;
        }
        param = read_param(b, name_end, j);
    }
    if j < b.len() && b[j] == 32 {
        j += 1;
    }
    (name_end, param, j)
}

// ---------------------------------------------------------------------
// The reader.
// ---------------------------------------------------------------------
/// The reader's state: nesting depth, the depth of the group being left out,
/// how many substitute bytes follow a `\uN`, and the text so far.
pub struct RtfState {
    pub depth: int,
    pub skip: Option<int>,
    pub uc: int,
    pub out: Seq<u8>,
}

/// The state at the start of a document.
pub open spec fn rtf_start() -> RtfState {
    RtfState { depth: 0, skip: None, uc: 1, out: seq![] }
}

/// The effect of the control word `w`: the state after it, and the index at
/// which reading goes on.
pub open spec fn apply_word(b: Seq<u8>, w: CtrlWord, st: RtfState) -> (int, RtfState) {
    if w.name == "par"@ || w.name == "line"@ || w.name == "sect"@ || w.name == "page"@ {
        (w.end, RtfState { out: st.out.push(10), ..st })
    } else if w.name == "tab"@ {
        (w.end, RtfState { out: st.out.push(9), ..st })
    } else if w.name == "uc"@ && w.param is Some && w.param->0 >= 0 {
        (w.end, RtfState { uc: w.param->0, ..st })
    } else if w.name == "u"@ && w.param is Some {
        (
            after_substitutes(b, w.end, st.uc),
            match unicode_param(w.param->0) {
                Some(c) => RtfState { out: st.out + encode_utf8(seq![c]), ..st },
                None => st,
            },
        )
    } else {
        (w.end, st)
    }
}

/// The effect of the backslash at `i`, outside the groups left out. A
/// backslash that ends the document, or a hexadecimal escape that is cut off,
/// ends the text.
pub open spec fn apply_backslash(b: Seq<u8>, i: int, st: RtfState) -> (int, RtfState) {
    let n = b.len() as int;
    if i + 1 >= n {
        (n, st)
    } else if b[i + 1] == 92 || b[i + 1] == 123 || b[i + 1] == 125 {
        (i + 2, RtfState { out: st.out.push(b[i + 1]), ..st })
    } else if b[i + 1] == 126 {
        (i + 2, RtfState { out: st.out.push(32), ..st })
    } else if b[i + 1] == 39 {
        if i + 3 < n {
            (
                i + 4,
                match (hex_value(b[i + 2]), hex_value(b[i + 3])) {
                    (Some(hi), Some(lo)) if hi < 8 => RtfState {
                        out: st.out.push((hi * 16 + lo) as u8),
                        ..st
                    },
                    _ => st,
                },
            )
        } else {
            (n, st)
        }
    } else if is_alpha(b[i + 1]) {
        apply_word(b, ctrl_word(b, i + 1), st)
    } else {
        (i + 2, st)
    }
}

/// The effect of what stands at index `i`: where reading goes on, and the
/// state there.
pub open spec fn rtf_step(b: Seq<u8>, i: int, st: RtfState) -> (int, RtfState) {
    if b[i] == 123 {
        (
            i + 1,
            RtfState {
                depth: st.depth + 1,
                skip: if st.skip is None && is_destination(b.skip(i + 1)) {
                    Some(st.depth + 1)
                } else {
                    st.skip
                },
                ..st
            },
        )
    } else if b[i] == 125 {
        (
            i + 1,
            RtfState {
                depth: st.depth - 1,
                skip: if st.skip is Some && st.depth <= st.skip->0 {
                    None
                } else {
                    st.skip
                },
                ..st
            },
        )
    } else if st.skip is Some {
        (
            if b[i] == 92 && i + 1 < b.len() {
                i + 2
            } else {
                i + 1
            },
            st,
        )
    } else if b[i] == 92 {
        apply_backslash(b, i, st)
    } else if b[i] == 13 || b[i] == 10 {
        (i + 1, st)
    } else {
        (i + 1, RtfState { out: st.out.push(b[i]), ..st })
    }
}

/// Every step moves on, and never past the end.
proof fn lemma_step_moves(b: Seq<u8>, i: int, st: RtfState)
    requires
        0 <= i < b.len(),
    ensures
        i < rtf_step(b, i, st).0 <= b.len(),
{
    if b[i] == 92 && st.skip is None && i + 1 < b.len() && is_alpha(b[i + 1]) {
        lemma_ctrl_word_end(b, i + 1);
        lemma_substitutes_end(b, ctrl_word(b, i + 1).end, st.uc);
    }
}

/// The text that comes out when reading goes on at index `i` in state `st`.
pub open spec fn rtf_run(b: Seq<u8>, i: int, st: RtfState) -> Seq<u8>
    decreases b.len() - i,
    via rtf_run_ends
{
    if 0 <= i < b.len() {
        let (j, next) = rtf_step(b, i, st);
        rtf_run(b, j, next)
    } else {
        st.out
    }
}

#[via_fn]
proof fn rtf_run_ends(b: Seq<u8>, i: int, st: RtfState) {
    if 0 <= i < b.len() {
        lemma_step_moves(b, i, st);
    }
}

/// The bytes of the visible text of an RTF document.
pub open spec fn rtf_visible(b: Seq<u8>) -> Seq<u8> {
    rtf_run(b, 0, rtf_start())
}

/// Appends the UTF-8 form of `c`.
fn push_utf8(out: &mut Vec<u8>, c: char)
    ensures
        final(out)@ == old(out)@ + encode_utf8(seq![c]),
{
    let mut s = String::new();
    s.push(c);
    assert(s@ =~= seq![c]);
    out.extend_from_slice(s.as_str().as_bytes());
}

/// What one control word does: the index after it; `out` and `uc` change.
fn do_word(b: &[u8], i: usize, out: &mut Vec<u8>, uc: &mut i32, Ghost(st): Ghost<RtfState>) -> (r:
    usize)
    requires
        i < b@.len(),
        is_alpha(b@[i as int]),
        *old(uc) >= 0,
        st.uc == *old(uc),
        st.out == old(out)@,
    ensures
        *final(uc) >= 0,
        i < r <= b@.len(),
        apply_word(b@, ctrl_word(b@, i as int), st).0 == r,
        apply_word(b@, ctrl_word(b@, i as int), st).1 == (RtfState {
            uc: *final(uc) as int,
            out: final(out)@,
            ..st
        }),
{
    let (name_end, param, end) = read_ctrl_word(b, i);
    let name = chars_of(b, i, name_end);
    let mut j: usize = end;
    if spells(&name, "par") || spells(&name, "line") || spells(&name, "sect") || spells(
        &name,
        "page",
    ) {
        out.push(10);
    } else if spells(&name, "tab") {
        out.push(9);
    } else if spells(&name, "uc") {
        proof {
            reveal_strlit("uc");
            reveal_strlit("u");
            assert("uc"@.len() != "u"@.len());
        }
        if let Some(p) = param {
            if p >= 0 {
                *uc = p;
            }
        }
    } else if spells(&name, "u") {
        if let Some(p) = param {
            let n: i64 = if p < 0 {
                p as i64 + 65536
            } else {
                p as i64
            };
            if n >= 0 {
                if let Some(c) = char::from_u32(n as u32) {
                    push_utf8(out, c);
                }
            }
            let most: i32 = *uc;
            let mut left: i32 = most;
            while left > 0 && j < b.len() && b[j] != 92 && b[j] != 123 && b[j] != 125
                invariant
                    end <= j <= b@.len(),
                    after_substitutes(b@, end as int, most as int) == after_substitutes(
                        b@,
                        j as int,
                        left as int,
                    ),
                decreases left,
            {
                j += 1;
                left -= 1;
            }
        }
    }
    j
}

/// The bytes of the visible text of an RTF document.
pub fn rtf_text_bytes(b: &[u8]) -> (r: Vec<u8>)
    ensures
        r@ == rtf_visible(b@),
{
    let mut out: Vec<u8> = Vec::new();
    let mut i: usize = 0;
    let mut depth: i128 = 0;
    let mut skip: Option<i128> = None;
    let mut uc: i32 = 1;
    assert(out@ =~= seq![]);
    while i < b.len()
        invariant
            i <= b.len(),
            -(i as int) <= depth <= i,
            uc >= 0,
            rtf_visible(b@) == rtf_run(
                b@,
                i as int,
                (RtfState {
                    depth: depth as int,
                    skip: match skip {
                        Some(d) => Some(d as int),
                        None => None,
                    },
                    uc: uc as int,
                    out: out@,
                }),
            ),
        decreases b@.len() - i,
    {
        let ghost st = RtfState {
            depth: depth as int,
            skip: match skip {
                Some(d) => Some(d as int),
                None => None,
            },
            uc: uc as int,
            out: out@,
        };
        proof {
            lemma_step_moves(b@, i as int, st);
        }
        let c: u8 = b[i];
        if c == 123 {
            depth += 1;
            i += 1;
            if skip.is_none() && destination_at(b, i) {
                skip = Some(depth);
            }
        } else if c == 125 {
            if let Some(d) = skip {
                if depth <= d {
                    skip = None;
                }
            }
            depth -= 1;
            i += 1;
        } else if skip.is_some() {
            if c == 92 && b.len() - i > 1 {
                i += 2;
            } else {
                i += 1;
            }
        } else if c == 92 {
            if b.len() - i <= 1 {
                i = b.len();
            } else {
                let next: u8 = b[i + 1];
                if next == 92 || next == 123 || next == 125 {
                    out.push(next);
                    i += 2;
                } else if next == 126 {
                    out.push(32);
                    i += 2;
                } else if next == 39 {
                    if b.len() - i > 3 {
                        if let (Some(hi), Some(lo)) = (hex_digit(b[i + 2]), hex_digit(b[i + 3])) {
                            if hi < 8 {
                                out.push(hi * 16 + lo);
                            }
                        }
                        i += 4;
                    } else {
                        i = b.len();
                    }
                } else if alpha(next) {
                    i = do_word(b, i + 1, &mut out, &mut uc, Ghost(st));
                } else {
                    i += 2;
                }
            }
        } else if c == 13 || c == 10 {
            i += 1;
        } else {
            out.push(c);
            i += 1;
        }
    }
    out
}

/// The visible text of an RTF document.
pub fn rtf_to_plain(s: &str) -> (r: String)
    ensures
        r@ == utf8_text(rtf_visible(encode_utf8(s@))),
{
    let bytes = rtf_text_bytes(s.as_bytes());
    utf8_lossy(&bytes)
}

// ---------------------------------------------------------------------
// Laws.
// ---------------------------------------------------------------------
/// Bytes that RTF gives no meaning to: everything but backslash, braces and
/// line breaks.
pub open spec fn is_plain_byte(b: u8) -> bool {
    b != 92 && b != 123 && b != 125 && b != 13 && b != 10
}

/// Text without backslashes, braces and line breaks is visible as it stands.
pub proof fn law_rtf_keeps_plain_text(b: Seq<u8>)
    requires
        forall|k: int| 0 <= k < b.len() ==> is_plain_byte(#[trigger] b[k]),
    ensures
        rtf_visible(b) == b,
{
    lemma_plain_run(b, 0, rtf_start());
    assert(seq![] + b =~= b);
    assert(b.skip(0) =~= b);
}

proof fn lemma_plain_run(b: Seq<u8>, i: int, st: RtfState)
    requires
        0 <= i <= b.len(),
        st.skip is None,
        forall|k: int| 0 <= k < b.len() ==> is_plain_byte(#[trigger] b[k]),
    ensures
        rtf_run(b, i, st) == st.out + b.skip(i),
    decreases b.len() - i,
{
    if i < b.len() {
        let next = RtfState { out: st.out.push(b[i]), ..st };
        assert(is_plain_byte(b[i]));
        lemma_plain_run(b, i + 1, next);
        assert(st.out.push(b[i]) + b.skip(i + 1) =~= st.out + b.skip(i));
    } else {
        assert(st.out + b.skip(i) =~= st.out);
    }
}

/// The index after the closing brace that matches, where `open` groups are open
/// at index `i`; `None` where the document ends before. Escaped braces do not
/// count.
pub open spec fn group_end(b: Seq<u8>, i: int, open: int) -> Option<int>
    decreases b.len() - i,
{
    if i < 0 || i >= b.len() {
        None
    } else if b[i] == 123 {
        group_end(b, i + 1, open + 1)
    } else if b[i] == 125 {
        if open <= 1 {
            Some(i + 1)
        } else {
            group_end(b, i + 1, open - 1)
        }
    } else if b[i] == 92 && i + 1 < b.len() {
        group_end(b, i + 2, open)
    } else {
        group_end(b, i + 1, open)
    }
}

/// A destination group adds nothing to the text, whatever groups and escapes it
/// holds: reading goes on after its closing brace as if it had not been there.
pub proof fn law_rtf_destination_is_silent(b: Seq<u8>, i: int, st: RtfState)
    requires
        0 <= i < b.len(),
        b[i] == 123,
        is_destination(b.skip(i + 1)),
        group_end(b, i + 1, 1) is Some,
        st.skip is None,
    ensures
        rtf_run(b, i, st) == rtf_run(b, group_end(b, i + 1, 1)->0, st),
{
    lemma_skipped_run(
        b,
        i + 1,
        1,
        RtfState { depth: st.depth + 1, skip: Some(st.depth + 1), ..st },
    );
}

proof fn lemma_skipped_run(b: Seq<u8>, i: int, open: int, st: RtfState)
    requires
        0 <= i,
        open >= 1,
        group_end(b, i, open) is Some,
        st.skip == Some(st.depth - open + 1),
    ensures
        rtf_run(b, i, st) == rtf_run(
            b,
            group_end(b, i, open)->0,
            (RtfState { depth: st.depth - open, skip: None, ..st }),
        ),
    decreases b.len() - i,
{
    let (j, next) = rtf_step(b, i, st);
    if b[i] == 123 {
        lemma_skipped_run(b, j, open + 1, next);
    } else if b[i] == 125 {
        if open > 1 {
            lemma_skipped_run(b, j, open - 1, next);
        }
    } else {
        lemma_skipped_run(b, j, open, next);
    }
}

/// Whether `g` is one destination group, from its opening brace to the closing
/// brace that matches.
pub open spec fn is_destination_group(g: Seq<u8>) -> bool {
    &&& g.len() > 0
    &&& g[0] == 123
    &&& is_destination(g.skip(1))
    &&& group_end(g, 1, 1) == Some(g.len() as int)
}

/// A destination group in front of a document is invisible.
pub proof fn law_rtf_leading_group_is_invisible(g: Seq<u8>, rest: Seq<u8>)
    requires
        is_destination_group(g),
    ensures
        rtf_visible(g + rest) == rtf_visible(rest),
{
    let b = g + rest;
    lemma_group_end_prefix(g, rest, 1, 1);
    lemma_last_brace(g, 1, 1);
    assert(b.skip(1) =~= g.skip(1) + rest);
    lemma_destination_prefix(g.skip(1), rest);
    law_rtf_destination_is_silent(b, 0, rtf_start());
    lemma_run_shift(g, rest, 0, rtf_start());
}

/// The plain text of a destination group and a text behind it is that text.
pub proof fn law_rtf_group_then_text(group: Seq<char>, text: Seq<char>)
    requires
        is_destination_group(encode_utf8(group)),
        forall|k: int|
            0 <= k < encode_utf8(text).len() ==> is_plain_byte(#[trigger] encode_utf8(text)[k]),
    ensures
        utf8_text(rtf_visible(encode_utf8(group + text))) == text,
{
    lemma_encode_concat(group, text);
    law_rtf_leading_group_is_invisible(encode_utf8(group), encode_utf8(text));
    law_rtf_keeps_plain_text(encode_utf8(text));
    encode_utf8_valid_utf8(text);
    encode_utf8_decode_utf8(text);
}

/// A group that is closed within `g` is closed there whatever follows.
proof fn lemma_group_end_prefix(g: Seq<u8>, rest: Seq<u8>, i: int, open: int)
    requires
        0 <= i,
        group_end(g, i, open) is Some,
    ensures
        group_end(g + rest, i, open) == group_end(g, i, open),
    decreases g.len() - i,
{
    let b = g + rest;
    assert(b[i] == g[i]);
    if g[i] == 123 {
        lemma_group_end_prefix(g, rest, i + 1, open + 1);
    } else if g[i] == 125 {
        if open > 1 {
            lemma_group_end_prefix(g, rest, i + 1, open - 1);
        }
    } else if g[i] == 92 && i + 1 < g.len() {
        lemma_group_end_prefix(g, rest, i + 2, open);
    } else {
        lemma_group_end_prefix(g, rest, i + 1, open);
    }
}

/// A group ends with a closing brace.
proof fn lemma_last_brace(b: Seq<u8>, i: int, open: int)
    requires
        0 <= i,
        group_end(b, i, open) is Some,
    ensures
        i < group_end(b, i, open)->0 <= b.len(),
        b[group_end(b, i, open)->0 - 1] == 125,
    decreases b.len() - i,
{
    if b[i] == 123 {
        lemma_last_brace(b, i + 1, open + 1);
    } else if b[i] == 125 {
        if open > 1 {
            lemma_last_brace(b, i + 1, open - 1);
        }
    } else if b[i] == 92 && i + 1 < b.len() {
        lemma_last_brace(b, i + 2, open);
    } else {
        lemma_last_brace(b, i + 1, open);
    }
}

/// A control word in front of a closing brace stays one whatever follows.
proof fn lemma_ctrl_prefix(a: Seq<u8>, rest: Seq<u8>, name: Seq<char>)
    requires
        a.len() > 0,
        a.last() == 125,
        name.len() > 0,
        name.last() != '}',
    ensures
        starts_with_ctrl(a, name) ==> starts_with_ctrl(a + rest, name),
{
    if starts_with_ctrl(a, name) {
        let n = name.len() as int;
        let word = a.subrange(1, n + 1);
        assert((a + rest).subrange(1, n + 1) =~= word);
        if a.len() == 1 + n {
            assert(as_chars(word)[n - 1] == word[n - 1] as char);
            assert(word[n - 1] == 125);
        }
    }
}

/// The start of a destination group stays one whatever follows the group.
proof fn lemma_destination_prefix(a: Seq<u8>, rest: Seq<u8>)
    requires
        is_destination(a),
        a.len() > 0,
        a.last() == 125,
    ensures
        is_destination(a + rest),
{
    reveal_strlit("fonttbl");
    reveal_strlit("colortbl");
    reveal_strlit("stylesheet");
    reveal_strlit("info");
    reveal_strlit("pict");
    reveal_strlit("object");
    reveal_strlit("listtable");
    reveal_strlit("listoverridetable");
    reveal_strlit("rsidtbl");
    reveal_strlit("generator");
    reveal_strlit("themedata");
    reveal_strlit("datastore");
    reveal_strlit("latentstyles");
    reveal_strlit("xmlnstbl");
    reveal_strlit("revtbl");
    lemma_ctrl_prefix(a, rest, "fonttbl"@);
    lemma_ctrl_prefix(a, rest, "colortbl"@);
    lemma_ctrl_prefix(a, rest, "stylesheet"@);
    lemma_ctrl_prefix(a, rest, "info"@);
    lemma_ctrl_prefix(a, rest, "pict"@);
    lemma_ctrl_prefix(a, rest, "object"@);
    lemma_ctrl_prefix(a, rest, "listtable"@);
    lemma_ctrl_prefix(a, rest, "listoverridetable"@);
    lemma_ctrl_prefix(a, rest, "rsidtbl"@);
    lemma_ctrl_prefix(a, rest, "generator"@);
    lemma_ctrl_prefix(a, rest, "themedata"@);
    lemma_ctrl_prefix(a, rest, "datastore"@);
    lemma_ctrl_prefix(a, rest, "latentstyles"@);
    lemma_ctrl_prefix(a, rest, "xmlnstbl"@);
    lemma_ctrl_prefix(a, rest, "revtbl"@);
}

/// Runs of letters and digits do not depend on what comes before.
proof fn lemma_run_ends_shift(a: Seq<u8>, b: Seq<u8>, i: int)
    requires
        0 <= i <= b.len(),
    ensures
        alpha_end(a + b, a.len() + i) == a.len() + alpha_end(b, i),
        digit_end(a + b, a.len() + i) == a.len() + digit_end(b, i),
    decreases b.len() - i,
{
    if i < b.len() {
        assert((a + b)[a.len() + i] == b[i]);
        lemma_run_ends_shift(a, b, i + 1);
    }
}

/// A control word does not depend on what comes before.
proof fn lemma_ctrl_word_shift(a: Seq<u8>, b: Seq<u8>, i: int)
    requires
        0 <= i < b.len(),
        is_alpha(b[i]),
    ensures
        ctrl_word(a + b, a.len() + i) == (CtrlWord {
            end: a.len() + ctrl_word(b, i).end,
            ..ctrl_word(b, i)
        }),
{
    let n = a.len() as int;
    let all = a + b;
    let j = alpha_end(b, i);
    lemma_ctrl_word_end(b, i);
    lemma_run_ends_shift(a, b, i);
    assert(all.subrange(n + i, n + j) =~= b.subrange(i, j));
    if j < b.len() {
        assert(all[n + j] == b[j]);
        if b[j] == 45 || is_digit(b[j]) {
            let first = if b[j] == 45 {
                j + 1
            } else {
                j
            };
            lemma_run_ends_shift(a, b, first);
            lemma_run_ends(b, first);
            let k = digit_end(b, first);
            assert(all.subrange(n + j, n + k) =~= b.subrange(j, k));
            if k < b.len() {
                assert(all[n + k] == b[k]);
            }
        }
    }
}

/// The bytes that stand for a character do not depend on what comes before.
proof fn lemma_substitutes_shift(a: Seq<u8>, b: Seq<u8>, j: int, n: int)
    requires
        0 <= j <= b.len(),
    ensures
        after_substitutes(a + b, a.len() + j, n) == a.len() + after_substitutes(b, j, n),
    decreases n,
{
    if n > 0 && j < b.len() {
        assert((a + b)[a.len() + j] == b[j]);
        lemma_substitutes_shift(a, b, j + 1, n - 1);
    }
}

/// A step does not depend on what comes before.
proof fn lemma_step_shift(a: Seq<u8>, b: Seq<u8>, i: int, st: RtfState)
    requires
        0 <= i < b.len(),
    ensures
        rtf_step(a + b, a.len() + i, st) == (
            a.len() + rtf_step(b, i, st).0,
            rtf_step(b, i, st).1,
        ),
{
    let n = a.len() as int;
    let all = a + b;
    assert(all[n + i] == b[i]);
    assert(all.skip(n + i + 1) =~= b.skip(i + 1));
    if b[i] == 92 && st.skip is None && i + 1 < b.len() {
        assert(all[n + i + 1] == b[i + 1]);
        if i + 3 < b.len() {
            assert(all[n + i + 2] == b[i + 2]);
            assert(all[n + i + 3] == b[i + 3]);
        }
        if is_alpha(b[i + 1]) {
            lemma_ctrl_word_shift(a, b, i + 1);
            lemma_ctrl_word_end(b, i + 1);
            lemma_substitutes_shift(a, b, ctrl_word(b, i + 1).end, st.uc);
        }
    }
}

/// Reading on does not depend on what comes before.
proof fn lemma_run_shift(a: Seq<u8>, b: Seq<u8>, i: int, st: RtfState)
    requires
        0 <= i <= b.len(),
    ensures
        rtf_run(a + b, a.len() + i, st) == rtf_run(b, i, st),
    decreases b.len() - i,
{
    if i < b.len() {
        lemma_step_shift(a, b, i, st);
        lemma_step_moves(b, i, st);
        let (j, next) = rtf_step(b, i, st);
        lemma_run_shift(a, b, j, next);
    }
}

// ---------------------------------------------------------------------
// What each piece of a document does to the text.
// ---------------------------------------------------------------------
/// Reading starts outside of all groups, with one substitute byte behind each
/// `\uN`, and what has been read at the end of the document is its text.
pub proof fn law_rtf_reading(b: Seq<u8>, i: int, st: RtfState)
    ensures
        rtf_visible(b) == rtf_run(b, 0, RtfState { depth: 0, skip: None, uc: 1, out: seq![] }),
        i >= b.len() ==> rtf_run(b, i, st) == st.out,
{
}

/// Characters are text, line breaks are not; backslashes, braces and blanks
/// that do not break are text where a backslash stands in front of them. Any
/// other symbol behind a backslash goes with it, and a backslash at the end of
/// the document is no text.
pub proof fn law_rtf_characters(b: Seq<u8>, i: int, st: RtfState)
    requires
        0 <= i < b.len(),
        st.skip is None,
    ensures
        b[i] != 92 && b[i] != 123 && b[i] != 125 && b[i] != 13 && b[i] != 10 ==> rtf_run(b, i, st)
            == rtf_run(b, i + 1, RtfState { out: st.out.push(b[i]), ..st }),
        b[i] == 13 || b[i] == 10 ==> rtf_run(b, i, st) == rtf_run(b, i + 1, st),
        b[i] == 125 ==> rtf_run(b, i, st) == rtf_run(
            b,
            i + 1,
            RtfState { depth: st.depth - 1, ..st },
        ),
        b[i] == 92 && i + 1 == b.len() ==> rtf_run(b, i, st) == st.out,
        b[i] == 92 && i + 1 < b.len() && (b[i + 1] == 92 || b[i + 1] == 123 || b[i + 1] == 125)
            ==> rtf_run(b, i, st) == rtf_run(
            b,
            i + 2,
            RtfState { out: st.out.push(b[i + 1]), ..st },
        ),
        b[i] == 92 && i + 1 < b.len() && b[i + 1] == 126 ==> rtf_run(b, i, st) == rtf_run(
            b,
            i + 2,
            RtfState { out: st.out.push(32), ..st },
        ),
        b[i] == 92 && i + 1 < b.len() && !(97 <= b[i + 1] <= 122) && !(65 <= b[i + 1] <= 90) && b[i
            + 1] != 92 && b[i + 1] != 123 && b[i + 1] != 125 && b[i + 1] != 126 && b[i + 1] != 39
            ==> rtf_run(b, i, st) == rtf_run(b, i + 2, st),
{
    reveal_with_fuel(rtf_run, 2);
}

/// `\'hh` is the ASCII character with that hexadecimal number; one that is cut
/// off ends the text, and any other adds nothing to it.
pub proof fn law_rtf_hex_escape(b: Seq<u8>, i: int, st: RtfState)
    requires
        0 <= i,
        i + 1 < b.len(),
        b[i] == 92,
        b[i + 1] == 39,
        st.skip is None,
    ensures
        i + 3 >= b.len() ==> rtf_run(b, i, st) == st.out,
        i + 3 < b.len() && 48 <= b[i + 2] <= 55 && 48 <= b[i + 3] <= 57 ==> rtf_run(b, i, st)
            == rtf_run(
            b,
            i + 4,
            RtfState { out: st.out.push((16 * (b[i + 2] - 48) + b[i + 3] - 48) as u8), ..st },
        ),
        i + 3 < b.len() && 48 <= b[i + 2] <= 55 && 97 <= b[i + 3] <= 102 ==> rtf_run(b, i, st)
            == rtf_run(
            b,
            i + 4,
            RtfState { out: st.out.push((16 * (b[i + 2] - 48) + b[i + 3] - 87) as u8), ..st },
        ),
        i + 3 < b.len() && 48 <= b[i + 2] <= 55 && 65 <= b[i + 3] <= 70 ==> rtf_run(b, i, st)
            == rtf_run(
            b,
            i + 4,
            RtfState { out: st.out.push((16 * (b[i + 2] - 48) + b[i + 3] - 55) as u8), ..st },
        ),
        i + 3 < b.len() && !(48 <= b[i + 2] <= 55 && (48 <= b[i + 3] <= 57 || 97 <= b[i + 3] <= 102
            || 65 <= b[i + 3] <= 70)) ==> rtf_run(b, i, st) == rtf_run(b, i + 4, st),
{
    reveal_with_fuel(rtf_run, 2);
}

/// Whether `w` is made up of ASCII letters, at least one.
pub open spec fn is_word(w: Seq<u8>) -> bool {
    &&& w.len() > 0
    &&& forall|k: int|
        0 <= k < w.len() ==> 97 <= #[trigger] w[k] <= 122 || 65 <= w[k] <= 90
}

/// Whether `w` spells `name` in ASCII.
pub open spec fn is_named(w: Seq<u8>, name: Seq<char>) -> bool {
    &&& w.len() == name.len()
    &&& forall|k: int| 0 <= k < w.len() ==> (#[trigger] w[k]) as char == name[k]
}

proof fn lemma_named(w: Seq<u8>, name: Seq<char>)
    ensures
        is_named(w, name) == (as_chars(w) == name),
{
    let cs = as_chars(w);
    if is_named(w, name) {
        assert forall|k: int| 0 <= k < w.len() implies cs[k] == name[k] by {
            assert(w[k] as char == name[k]);
        }
        assert(cs =~= name);
    }
    if cs == name {
        assert forall|k: int| 0 <= k < w.len() implies (#[trigger] w[k]) as char == name[k] by {
            assert(cs[k] == w[k] as char);
        }
    }
}

proof fn lemma_alpha_end_is(b: Seq<u8>, i: int, j: int)
    requires
        0 <= i <= j <= b.len(),
        forall|k: int| i <= k < j ==> is_alpha(#[trigger] b[k]),
        j == b.len() || !is_alpha(b[j]),
    ensures
        alpha_end(b, i) == j,
    decreases j - i,
{
    if i < j {
        assert(is_alpha(b[i]));
        lemma_alpha_end_is(b, i + 1, j);
    }
}

proof fn lemma_digit_end_is(b: Seq<u8>, i: int, j: int)
    requires
        0 <= i <= j <= b.len(),
        forall|k: int| i <= k < j ==> is_digit(#[trigger] b[k]),
        j == b.len() || !is_digit(b[j]),
    ensures
        digit_end(b, i) == j,
    decreases j - i,
{
    if i < j {
        assert(is_digit(b[i]));
        lemma_digit_end_is(b, i + 1, j);
    }
}

proof fn lemma_word_is(b: Seq<u8>, i: int, w: Seq<u8>)
    requires
        0 <= i,
        i + w.len() <= b.len(),
        is_word(w),
        b.subrange(i, i + w.len()) == w,
        i + w.len() == b.len() || !is_alpha(b[i + w.len()]),
    ensures
        is_alpha(b[i]),
        alpha_end(b, i) == i + w.len(),
{
    assert forall|k: int| i <= k < i + w.len() implies is_alpha(#[trigger] b[k]) by {
        assert(b.subrange(i, i + w.len())[k - i] == b[k]);
        assert(w[k - i] == b[k]);
    }
    lemma_alpha_end_is(b, i, i + w.len());
}

/// A control word without a number breaks the line where it is `\par`,
/// `\line`, `\sect` or `\page`, is a tab where it is `\tab`, and any other is
/// no text. One blank behind it goes with it.
pub proof fn law_rtf_word(b: Seq<u8>, i: int, st: RtfState, w: Seq<u8>)
    requires
        0 <= i,
        i + 1 + w.len() <= b.len(),
        b[i] == 92,
        is_word(w),
        b.subrange(i + 1, i + 1 + w.len()) == w,
        i + 1 + w.len() < b.len() ==> ({
            let d = b[i + 1 + w.len()];
            !(97 <= d <= 122) && !(65 <= d <= 90) && !(48 <= d <= 57) && d != 45
        }),
        st.skip is None,
    ensures
        ({
            let end = i + 1 + w.len();
            let next = if end < b.len() && b[end] == 32 {
                end + 1
            } else {
                end
            };
            let breaks = is_named(w, "par"@) || is_named(w, "line"@) || is_named(w, "sect"@)
                || is_named(w, "page"@);
            let tab = is_named(w, "tab"@);
            &&& breaks ==> rtf_run(b, i, st) == rtf_run(
                b,
                next,
                RtfState { out: st.out.push(10), ..st },
            )
            &&& tab ==> rtf_run(b, i, st) == rtf_run(
                b,
                next,
                RtfState { out: st.out.push(9), ..st },
            )
            &&& !breaks && !tab ==> rtf_run(b, i, st) == rtf_run(b, next, st)
        }),
{
    lemma_word_is(b, i + 1, w);
    lemma_named(w, "par"@);
    lemma_named(w, "line"@);
    lemma_named(w, "sect"@);
    lemma_named(w, "page"@);
    lemma_named(w, "tab"@);
    reveal_strlit("par");
    reveal_strlit("line");
    reveal_strlit("sect");
    reveal_strlit("page");
    reveal_strlit("tab");
    assert("par"@[0] != "tab"@[0]);
}

/// A control word with a number behind it: `\ucN` says how many substitute
/// bytes follow each `\uN`, and `\uN` is the character with that number,
/// negative ones counted down from 65536, in place of the substitute bytes that
/// follow. For all other words the number makes no difference.
pub proof fn law_rtf_word_with_number(
    b: Seq<u8>,
    i: int,
    st: RtfState,
    w: Seq<u8>,
    neg: bool,
    ds: Seq<u8>,
    subst: int,
)
    requires
        0 <= i,
        b[i] == 92,
        is_word(w),
        ds.len() > 0,
        forall|k: int| 0 <= k < ds.len() ==> 48 <= #[trigger] ds[k] <= 57,
        ({
            let sign = i + 1 + w.len();
            let first = if neg {
                sign + 1
            } else {
                sign
            };
            &&& first + ds.len() <= b.len()
            &&& b.subrange(i + 1, sign) == w
            &&& neg ==> b[sign] == 45
            &&& b.subrange(first, first + ds.len()) == ds
            &&& first + ds.len() < b.len() ==> !(48 <= b[first + ds.len()] <= 57)
        }),
        st.skip is None,
        0 <= subst <= st.uc,
    ensures
        ({
            let end = i + 1 + w.len() + ds.len() + if neg {
                1int
            } else {
                0
            };
            let next = if end < b.len() && b[end] == 32 {
                end + 1
            } else {
                end
            };
            let size = number(ds.map_values(|d: u8| (d - 48) as u8), 10) as int;
            let v = if neg {
                -size
            } else {
                size
            };
            let fits = -0x8000_0000 <= v <= 0x7fff_ffff;
            let code = if neg && size > 0 {
                0x1_0000 - size
            } else {
                v
            };
            let same = rtf_run(b, next, st);
            &&& is_named(w, "uc"@) && fits && v >= 0 ==> rtf_run(b, i, st) == rtf_run(
                b,
                next,
                RtfState { uc: v, ..st },
            )
            &&& is_named(w, "uc"@) && !(fits && v >= 0) ==> rtf_run(b, i, st) == same
            &&& is_named(w, "u"@) && fits && next + subst <= b.len() && (forall|k: int|
                next <= k < next + subst ==> #[trigger] b[k] != 92 && b[k] != 123 && b[k] != 125)
                && (subst == st.uc || next + subst == b.len() || b[next + subst] == 92 || b[next
                + subst] == 123 || b[next + subst] == 125) ==> rtf_run(b, i, st) == rtf_run(
                b,
                next + subst,
                if 0 <= code <= 0xd7ff || 0xe000 <= code <= 0x10_ffff {
                    RtfState { out: st.out + encode_utf8(seq![code as char]), ..st }
                } else {
                    st
                },
            )
            &&& is_named(w, "u"@) && !fits ==> rtf_run(b, i, st) == same
            &&& is_named(w, "par"@) || is_named(w, "line"@) || is_named(w, "sect"@) || is_named(
                w,
                "page"@,
            ) ==> rtf_run(b, i, st) == rtf_run(b, next, RtfState { out: st.out.push(10), ..st })
            &&& is_named(w, "tab"@) ==> rtf_run(b, i, st) == rtf_run(
                b,
                next,
                RtfState { out: st.out.push(9), ..st },
            )
            &&& !is_named(w, "u"@) && !is_named(w, "uc"@) && !is_named(w, "par"@) && !is_named(
                w,
                "line"@,
            ) && !is_named(w, "sect"@) && !is_named(w, "page"@) && !is_named(w, "tab"@) ==> rtf_run(
                b,
                i,
                st,
            ) == same
        }),
{
    let sign = i + 1 + w.len();
    let first = if neg {
        sign + 1
    } else {
        sign
    };
    let end = first + ds.len();
    assert(b.subrange(first, end)[0] == b[first]);
    assert(ds[0] == b[first]);
    lemma_word_is(b, i + 1, w);
    assert forall|k: int| first <= k < end implies is_digit(#[trigger] b[k]) by {
        assert(b.subrange(first, end)[k - first] == b[k]);
        assert(ds[k - first] == b[k]);
    }
    lemma_digit_end_is(b, first, end);
    assert(is_digit(b[first]));
    let p = b.subrange(sign, end);
    assert((if neg {
        p.skip(1)
    } else {
        p
    }) =~= ds);
    assert(p[0] == b[sign]);
    assert((p[0] == 45) == neg);
    assert(ds.map_values(|d: u8| (d - 48) as u8) =~= ds.map_values(|x: u8| (x - 48) as u8));
    lemma_named(w, "par"@);
    lemma_named(w, "line"@);
    lemma_named(w, "sect"@);
    lemma_named(w, "page"@);
    lemma_named(w, "tab"@);
    lemma_named(w, "u"@);
    lemma_named(w, "uc"@);
    reveal_strlit("par");
    reveal_strlit("line");
    reveal_strlit("sect");
    reveal_strlit("page");
    reveal_strlit("tab");
    reveal_strlit("u");
    reveal_strlit("uc");
    let next = ctrl_word(b, i + 1).end;
    if next + subst <= b.len() && (forall|k: int|
        next <= k < next + subst ==> #[trigger] b[k] != 92 && b[k] != 123 && b[k] != 125) && (subst
        == st.uc || next + subst == b.len() || b[next + subst] == 92 || b[next + subst] == 123
        || b[next + subst] == 125) {
        lemma_substitutes_are(b, next, st.uc, subst);
    }
}

proof fn lemma_substitutes_are(b: Seq<u8>, j: int, n: int, k: int)
    requires
        0 <= j,
        0 <= k <= n,
        j + k <= b.len(),
        forall|m: int| j <= m < j + k ==> #[trigger] b[m] != 92 && b[m] != 123 && b[m] != 125,
        k == n || j + k == b.len() || b[j + k] == 92 || b[j + k] == 123 || b[j + k] == 125,
    ensures
        after_substitutes(b, j, n) == j + k,
    decreases k,
{
    if k > 0 {
        assert(b[j] != 92);
        lemma_substitutes_are(b, j + 1, n - 1, k - 1);
    }
}

/// Whether `after` begins with a backslash and `name`, and no letter behind it.
pub open spec fn begins_with(after: Seq<u8>, name: Seq<char>) -> bool {
    &&& after.len() >= 1 + name.len()
    &&& after[0] == 92
    &&& is_named(after.subrange(1, 1 + name.len() as int), name)
    &&& after.len() > 1 + name.len() ==> !(97 <= after[1 + name.len() as int] <= 122) && !(65
        <= after[1 + name.len() as int] <= 90)
}

/// The groups that hold no text are those that start with `\*` and those that
/// start with one of fifteen control words.
pub proof fn law_rtf_destinations(after: Seq<u8>)
    ensures
        is_destination(after) == ({
            ||| after.len() >= 2 && after[0] == 92 && after[1] == 42
            ||| begins_with(after, "fonttbl"@)
            ||| begins_with(after, "colortbl"@)
            ||| begins_with(after, "stylesheet"@)
            ||| begins_with(after, "info"@)
            ||| begins_with(after, "pict"@)
            ||| begins_with(after, "object"@)
            ||| begins_with(after, "listtable"@)
            ||| begins_with(after, "listoverridetable"@)
            ||| begins_with(after, "rsidtbl"@)
            ||| begins_with(after, "generator"@)
            ||| begins_with(after, "themedata"@)
            ||| begins_with(after, "datastore"@)
            ||| begins_with(after, "latentstyles"@)
            ||| begins_with(after, "xmlnstbl"@)
            ||| begins_with(after, "revtbl"@)
        }),
{
    lemma_begins_with(after, "fonttbl"@);
    lemma_begins_with(after, "colortbl"@);
    lemma_begins_with(after, "stylesheet"@);
    lemma_begins_with(after, "info"@);
    lemma_begins_with(after, "pict"@);
    lemma_begins_with(after, "object"@);
    lemma_begins_with(after, "listtable"@);
    lemma_begins_with(after, "listoverridetable"@);
    lemma_begins_with(after, "rsidtbl"@);
    lemma_begins_with(after, "generator"@);
    lemma_begins_with(after, "themedata"@);
    lemma_begins_with(after, "datastore"@);
    lemma_begins_with(after, "latentstyles"@);
    lemma_begins_with(after, "xmlnstbl"@);
    lemma_begins_with(after, "revtbl"@);
}

proof fn lemma_begins_with(after: Seq<u8>, name: Seq<char>)
    ensures
        starts_with_ctrl(after, name) == begins_with(after, name),
{
    lemma_named(after.subrange(1, 1 + name.len() as int), name);
}

/// Any other group is transparent: what it holds is read as if the braces were
/// not there.
pub proof fn law_rtf_other_groups_are_read(b: Seq<u8>, i: int, st: RtfState)
    requires
        0 <= i < b.len(),
        b[i] == 123,
        st.skip is None,
        ({
            let after = b.skip(i + 1);
            &&& !(after.len() >= 2 && after[0] == 92 && after[1] == 42)
            &&& !begins_with(after, "fonttbl"@)
            &&& !begins_with(after, "colortbl"@)
            &&& !begins_with(after, "stylesheet"@)
            &&& !begins_with(after, "info"@)
            &&& !begins_with(after, "pict"@)
            &&& !begins_with(after, "object"@)
            &&& !begins_with(after, "listtable"@)
            &&& !begins_with(after, "listoverridetable"@)
            &&& !begins_with(after, "rsidtbl"@)
            &&& !begins_with(after, "generator"@)
            &&& !begins_with(after, "themedata"@)
            &&& !begins_with(after, "datastore"@)
            &&& !begins_with(after, "latentstyles"@)
            &&& !begins_with(after, "xmlnstbl"@)
            &&& !begins_with(after, "revtbl"@)
        }),
    ensures
        rtf_run(b, i, st) == rtf_run(b, i + 1, RtfState { depth: st.depth + 1, ..st }),
{
    law_rtf_destinations(b.skip(i + 1));
}

/// What has been read so far stands in front of what is read on.
proof fn lemma_run_out(b: Seq<u8>, i: int, st: RtfState)
    ensures
        rtf_run(b, i, st) == st.out + rtf_run(b, i, RtfState { out: seq![], ..st }),
    decreases b.len() - i,
{
    let none = RtfState { out: seq![], ..st };
    if 0 <= i < b.len() {
        lemma_step_moves(b, i, st);
        lemma_step_moves(b, i, none);
        let (j, next) = rtf_step(b, i, st);
        let (nj, nnext) = rtf_step(b, i, none);
        assert(nj == j);
        assert(next.out =~= st.out + nnext.out);
        lemma_run_out(b, j, next);
        lemma_run_out(b, j, nnext);
        let rest = rtf_run(b, j, RtfState { out: seq![], ..next });
        assert(RtfState { out: seq![], ..nnext } == RtfState { out: seq![], ..next });
        assert(next.out + rest =~= st.out + (nnext.out + rest));
    } else {
        assert(st.out + seq![] =~= st.out);
    }
}

/// Plain text is read as it stands, wherever it is.
proof fn lemma_plain_part(b: Seq<u8>, i: int, j: int, st: RtfState)
    requires
        0 <= i <= j <= b.len(),
        st.skip is None,
        forall|k: int| i <= k < j ==> is_plain_byte(#[trigger] b[k]),
    ensures
        rtf_run(b, i, st) == rtf_run(b, j, RtfState { out: st.out + b.subrange(i, j), ..st }),
    decreases j - i,
{
    if i < j {
        assert(is_plain_byte(b[i]));
        let next = RtfState { out: st.out.push(b[i]), ..st };
        lemma_plain_part(b, i + 1, j, next);
        assert(next.out + b.subrange(i + 1, j) =~= st.out + b.subrange(i, j));
    } else {
        assert(st.out + b.subrange(i, j) =~= st.out);
    }
}

/// A group for formatting adds the text that it holds, and nothing else: behind
/// the opening brace stands a control word that neither starts a destination
/// nor is text itself, with a number or without, a blank, and plain text up to
/// the closing brace. What stands in front of the group and behind it is read
/// as if the text stood there alone.
#[verifier::rlimit(30)]
pub proof fn law_rtf_formatting_group_is_its_text(
    before: Seq<u8>,
    word: Seq<u8>,
    digits: Seq<u8>,
    text: Seq<u8>,
    rest: Seq<u8>,
)
    requires
        forall|k: int| 0 <= k < before.len() ==> is_plain_byte(#[trigger] before[k]),
        forall|k: int| 0 <= k < text.len() ==> is_plain_byte(#[trigger] text[k]),
        forall|k: int| 0 <= k < digits.len() ==> 48 <= #[trigger] digits[k] <= 57,
        is_word(word),
        !is_named(word, "fonttbl"@),
        !is_named(word, "colortbl"@),
        !is_named(word, "stylesheet"@),
        !is_named(word, "info"@),
        !is_named(word, "pict"@),
        !is_named(word, "object"@),
        !is_named(word, "listtable"@),
        !is_named(word, "listoverridetable"@),
        !is_named(word, "rsidtbl"@),
        !is_named(word, "generator"@),
        !is_named(word, "themedata"@),
        !is_named(word, "datastore"@),
        !is_named(word, "latentstyles"@),
        !is_named(word, "xmlnstbl"@),
        !is_named(word, "revtbl"@),
        !is_named(word, "par"@),
        !is_named(word, "line"@),
        !is_named(word, "sect"@),
        !is_named(word, "page"@),
        !is_named(word, "tab"@),
        !is_named(word, "u"@),
        !is_named(word, "uc"@),
    ensures
        rtf_visible(
            before + seq![123u8, 92u8] + word + digits + seq![32u8] + text + seq![125u8] + rest,
        ) == before + text + rtf_visible(rest),
{
    let b = before + seq![123u8, 92u8] + word + digits + seq![32u8] + text + seq![125u8] + rest;
    let st = RtfState { depth: 0, skip: None, uc: 1, out: seq![] };
    let n = before.len() as int;
    let at = n + 2 + word.len();
    let from = at + digits.len() + 1;
    let to = from + text.len();
    assert(b.subrange(0, n) =~= before);
    assert(b[n] == 123 && b[n + 1] == 92);
    assert(b.subrange(n + 2, at) =~= word);
    assert(b.subrange(at, from - 1) =~= digits);
    assert(b[from - 1] == 32);
    assert(b.subrange(from, to) =~= text);
    assert(b[to] == 125);
    let front = b.take(to + 1);
    assert(b =~= front + rest);
    lemma_plain_start(b, before);
    let st1 = RtfState { out: before, ..st };
    lemma_formatting_group(b, n, word, digits, text, st1);
    let st2 = RtfState { out: before + text, ..st };
    lemma_run_shift(front, rest, 0, st2);
    lemma_run_out(rest, 0, st2);
    assert(RtfState { out: seq![], ..st2 } == st);
}

proof fn lemma_plain_start(b: Seq<u8>, before: Seq<u8>)
    requires
        before.len() <= b.len(),
        b.subrange(0, before.len() as int) == before,
        forall|k: int| 0 <= k < before.len() ==> is_plain_byte(#[trigger] before[k]),
    ensures
        rtf_visible(b) == rtf_run(
            b,
            before.len() as int,
            RtfState { depth: 0, skip: None, uc: 1, out: before },
        ),
{
    let n = before.len() as int;
    assert forall|k: int| 0 <= k < n implies is_plain_byte(#[trigger] b[k]) by {
        assert(b.subrange(0, n)[k] == b[k]);
        assert(is_plain_byte(before[k]));
    }
    lemma_plain_part(b, 0, n, rtf_start());
    assert(seq![] + before =~= before);
}

proof fn lemma_formatting_group(
    b: Seq<u8>,
    n: int,
    word: Seq<u8>,
    digits: Seq<u8>,
    text: Seq<u8>,
    st: RtfState,
)
    requires
        0 <= n,
        st.skip is None,
        st.uc == 1,
        is_word(word),
        forall|k: int| 0 <= k < text.len() ==> is_plain_byte(#[trigger] text[k]),
        forall|k: int| 0 <= k < digits.len() ==> 48 <= #[trigger] digits[k] <= 57,
        !is_named(word, "fonttbl"@),
        !is_named(word, "colortbl"@),
        !is_named(word, "stylesheet"@),
        !is_named(word, "info"@),
        !is_named(word, "pict"@),
        !is_named(word, "object"@),
        !is_named(word, "listtable"@),
        !is_named(word, "listoverridetable"@),
        !is_named(word, "rsidtbl"@),
        !is_named(word, "generator"@),
        !is_named(word, "themedata"@),
        !is_named(word, "datastore"@),
        !is_named(word, "latentstyles"@),
        !is_named(word, "xmlnstbl"@),
        !is_named(word, "revtbl"@),
        !is_named(word, "par"@),
        !is_named(word, "line"@),
        !is_named(word, "sect"@),
        !is_named(word, "page"@),
        !is_named(word, "tab"@),
        !is_named(word, "u"@),
        !is_named(word, "uc"@),
        ({
            let at = n + 2 + word.len();
            let from = at + digits.len() + 1;
            let to = from + text.len();
            &&& to < b.len()
            &&& b[n] == 123
            &&& b[n + 1] == 92
            &&& b.subrange(n + 2, at) == word
            &&& b.subrange(at, from - 1) == digits
            &&& b[from - 1] == 32
            &&& b.subrange(from, to) == text
            &&& b[to] == 125
        }),
    ensures
        rtf_run(b, n, st) == rtf_run(
            b,
            n + 4 + word.len() + digits.len() + text.len(),
            RtfState { out: st.out + text, ..st },
        ),
{
    let at = n + 2 + word.len();
    let from = at + digits.len() + 1;
    let to = from + text.len();
    let after = b.skip(n + 1);
    assert(after[0] == b[n + 1]);
    assert(after.subrange(1, 1 + word.len() as int) =~= word);
    assert(word[0] == b.subrange(n + 2, at)[0]);
    assert(after[1] == word[0]);
    assert(after[1 + word.len() as int] == b[at]);
    if digits.len() > 0 {
        assert(digits[0] == b.subrange(at, from - 1)[0]);
    }
    lemma_other_word(after, word);
    law_rtf_other_groups_are_read(b, n, st);
    let inner = RtfState { depth: st.depth + 1, ..st };
    if digits.len() == 0 {
        law_rtf_word(b, n + 1, inner, word);
    } else {
        law_rtf_word_with_number(b, n + 1, inner, word, false, digits, 0);
    }
    assert forall|k: int| from <= k < to implies is_plain_byte(#[trigger] b[k]) by {
        assert(b.subrange(from, to)[k - from] == b[k]);
        assert(is_plain_byte(text[k - from]));
    }
    lemma_plain_part(b, from, to, inner);
    law_rtf_characters(b, to, RtfState { out: st.out + text, ..inner });
}

/// A group that starts with another word is no destination.
proof fn lemma_other_word(after: Seq<u8>, word: Seq<u8>)
    requires
        is_word(word),
        after.len() > 1 + word.len(),
        after.subrange(1, 1 + word.len() as int) == word,
        !is_alpha(after[1 + word.len() as int]),
        !is_named(word, "fonttbl"@),
        !is_named(word, "colortbl"@),
        !is_named(word, "stylesheet"@),
        !is_named(word, "info"@),
        !is_named(word, "pict"@),
        !is_named(word, "object"@),
        !is_named(word, "listtable"@),
        !is_named(word, "listoverridetable"@),
        !is_named(word, "rsidtbl"@),
        !is_named(word, "generator"@),
        !is_named(word, "themedata"@),
        !is_named(word, "datastore"@),
        !is_named(word, "latentstyles"@),
        !is_named(word, "xmlnstbl"@),
        !is_named(word, "revtbl"@),
    ensures
        !begins_with(after, "fonttbl"@),
        !begins_with(after, "colortbl"@),
        !begins_with(after, "stylesheet"@),
        !begins_with(after, "info"@),
        !begins_with(after, "pict"@),
        !begins_with(after, "object"@),
        !begins_with(after, "listtable"@),
        !begins_with(after, "listoverridetable"@),
        !begins_with(after, "rsidtbl"@),
        !begins_with(after, "generator"@),
        !begins_with(after, "themedata"@),
        !begins_with(after, "datastore"@),
        !begins_with(after, "latentstyles"@),
        !begins_with(after, "xmlnstbl"@),
        !begins_with(after, "revtbl"@),
{
    assert(!begins_with(after, "fonttbl"@)) by {
        reveal_strlit("fonttbl");
        lemma_word_only(after, word, "fonttbl"@);
    }
    assert(!begins_with(after, "colortbl"@)) by {
        reveal_strlit("colortbl");
        lemma_word_only(after, word, "colortbl"@);
    }
    assert(!begins_with(after, "stylesheet"@)) by {
        reveal_strlit("stylesheet");
        lemma_word_only(after, word, "stylesheet"@);
    }
    assert(!begins_with(after, "info"@)) by {
        reveal_strlit("info");
        lemma_word_only(after, word, "info"@);
    }
    assert(!begins_with(after, "pict"@)) by {
        reveal_strlit("pict");
        lemma_word_only(after, word, "pict"@);
    }
    assert(!begins_with(after, "object"@)) by {
        reveal_strlit("object");
        lemma_word_only(after, word, "object"@);
    }
    assert(!begins_with(after, "listtable"@)) by {
        reveal_strlit("listtable");
        lemma_word_only(after, word, "listtable"@);
    }
    assert(!begins_with(after, "listoverridetable"@)) by {
        reveal_strlit("listoverridetable");
        lemma_word_only(after, word, "listoverridetable"@);
    }
    assert(!begins_with(after, "rsidtbl"@)) by {
        reveal_strlit("rsidtbl");
        lemma_word_only(after, word, "rsidtbl"@);
    }
    assert(!begins_with(after, "generator"@)) by {
        reveal_strlit("generator");
        lemma_word_only(after, word, "generator"@);
    }
    assert(!begins_with(after, "themedata"@)) by {
        reveal_strlit("themedata");
        lemma_word_only(after, word, "themedata"@);
    }
    assert(!begins_with(after, "datastore"@)) by {
        reveal_strlit("datastore");
        lemma_word_only(after, word, "datastore"@);
    }
    assert(!begins_with(after, "latentstyles"@)) by {
        reveal_strlit("latentstyles");
        lemma_word_only(after, word, "latentstyles"@);
    }
    assert(!begins_with(after, "xmlnstbl"@)) by {
        reveal_strlit("xmlnstbl");
        lemma_word_only(after, word, "xmlnstbl"@);
    }
    assert(!begins_with(after, "revtbl"@)) by {
        reveal_strlit("revtbl");
        lemma_word_only(after, word, "revtbl"@);
    }
}

/// Where a document begins with a control word, it begins with no other one.
proof fn lemma_word_only(after: Seq<u8>, word: Seq<u8>, name: Seq<char>)
    requires
        is_word(word),
        after.len() > 1 + word.len(),
        after.subrange(1, 1 + word.len() as int) == word,
        !is_alpha(after[1 + word.len() as int]),
        !is_named(word, name),
        forall|k: int| 0 <= k < name.len() ==> 'a' <= #[trigger] name[k] <= 'z',
    ensures
        !begins_with(after, name),
{
    if begins_with(after, name) {
        let n = name.len() as int;
        let w = word.len() as int;
        let first = after.subrange(1, 1 + n);
        if n > w {
            assert(first[w] == after[1 + w]);
            assert(first[w] as char == name[w]);
            assert('a' <= name[w] <= 'z');
        } else if n < w {
            assert(word[n] == after.subrange(1, 1 + w)[n]);
        } else {
            assert(first =~= word);
        }
    }
}

/// Hexadecimal digits by their values, in either case; nothing else is one.
pub proof fn law_hex_digits(b: u8, d: int)
    ensures
        0 <= d < 16 ==> hex_value("0123456789abcdef"@[d] as u8) == Some(d as u8) && hex_value(
            "0123456789ABCDEF"@[d] as u8,
        ) == Some(d as u8),
        hex_value(b) is Some == (48 <= b <= 57 || 97 <= b <= 102 || 65 <= b <= 70),
{
    reveal_strlit("0123456789abcdef");
    reveal_strlit("0123456789ABCDEF");
}

/// A document starts with a control word where a backslash and the name stand
/// there and no letter follows.
pub proof fn law_starts_with_word(after: Seq<u8>, name: Seq<char>)
    ensures
        starts_with_ctrl(after, name) == begins_with(after, name),
{
    lemma_begins_with(after, name);
}

/// A minus sign without digits is part of the control word in front of it and
/// no number.
pub proof fn law_rtf_word_with_dash(b: Seq<u8>, i: int, st: RtfState, w: Seq<u8>)
    requires
        0 <= i,
        i + 1 + w.len() < b.len(),
        b[i] == 92,
        is_word(w),
        b.subrange(i + 1, i + 1 + w.len()) == w,
        b[i + 1 + w.len()] == 45,
        i + 2 + w.len() < b.len() ==> !(48 <= b[i + 2 + w.len()] <= 57),
        is_named(w, "u"@) || is_named(w, "uc"@),
        st.skip is None,
    ensures
        ({
            let end = i + 2 + w.len();
            rtf_run(b, i, st) == rtf_run(
                b,
                if end < b.len() && b[end] == 32 {
                    end + 1
                } else {
                    end
                },
                st,
            )
        }),
{
    let sign = i + 1 + w.len();
    lemma_word_is(b, i + 1, w);
    lemma_digit_end_is(b, sign + 1, sign + 1);
    let p = b.subrange(sign, sign + 1);
    assert(p[0] == b[sign]);
    assert(p.skip(1).len() == 0);
    lemma_named(w, "par"@);
    lemma_named(w, "line"@);
    lemma_named(w, "sect"@);
    lemma_named(w, "page"@);
    lemma_named(w, "tab"@);
    lemma_named(w, "u"@);
    lemma_named(w, "uc"@);
    reveal_strlit("par");
    reveal_strlit("line");
    reveal_strlit("sect");
    reveal_strlit("page");
    reveal_strlit("tab");
    reveal_strlit("u");
    reveal_strlit("uc");
}

/// Within a destination nothing is text: groups are counted until its own is
/// closed, and what stands behind a backslash counts for nothing.
pub proof fn law_rtf_inside_destination(b: Seq<u8>, i: int, st: RtfState, d: int)
    requires
        0 <= i < b.len(),
        st.skip == Some(d),
    ensures
        b[i] == 123 ==> rtf_run(b, i, st) == rtf_run(
            b,
            i + 1,
            RtfState { depth: st.depth + 1, ..st },
        ),
        b[i] == 125 && st.depth > d ==> rtf_run(b, i, st) == rtf_run(
            b,
            i + 1,
            RtfState { depth: st.depth - 1, ..st },
        ),
        b[i] == 125 && st.depth <= d ==> rtf_run(b, i, st) == rtf_run(
            b,
            i + 1,
            RtfState { depth: st.depth - 1, skip: None, ..st },
        ),
        b[i] == 92 && i + 1 < b.len() ==> rtf_run(b, i, st) == rtf_run(b, i + 2, st),
        b[i] != 123 && b[i] != 125 && (b[i] != 92 || i + 1 == b.len()) ==> rtf_run(b, i, st)
            == rtf_run(b, i + 1, st),
{
}

} // verus!
