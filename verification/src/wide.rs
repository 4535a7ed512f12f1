//! UTF-16, the text form of the Windows API.

use vstd::prelude::*;
use vstd::utf8::*;

use crate::text::to_chars;

verus! {

/// The UTF-16 units of one character.
pub open spec fn units(c: char) -> Seq<u16> {
    let n = c as u32;
    if n < 0x10000 {
        seq![n as u16]
    } else {
        seq![(0xd800 + (n - 0x10000) / 0x400) as u16, (0xdc00 + (n - 0x10000) % 0x400) as u16]
    }
}

/// The UTF-16 units of a text.
pub open spec fn utf16(s: Seq<char>) -> Seq<u16>
    decreases s.len(),
{
    if s.len() == 0 {
        seq![]
    } else {
        utf16(s.drop_last()) + units(s.last())
    }
}

/// The first half of a surrogate pair.
pub open spec fn is_high(u: u16) -> bool {
    0xd800 <= u <= 0xdbff
}

/// The second half of a surrogate pair.
pub open spec fn is_low(u: u16) -> bool {
    0xdc00 <= u <= 0xdfff
}

/// The character of a surrogate pair.
pub open spec fn pair_char(hi: u16, lo: u16) -> char {
    (0x10000 + (hi - 0xd800) * 0x400 + (lo - 0xdc00)) as char
}

/// The text that UTF-16 units spell; each unpaired surrogate reads as the
/// replacement character.
pub open spec fn utf16_text(u: Seq<u16>) -> Seq<char>
    decreases u.len(),
{
    if u.len() == 0 {
        seq![]
    } else if u.len() >= 2 && is_high(u[0]) && is_low(u[1]) {
        seq![pair_char(u[0], u[1])] + utf16_text(u.skip(2))
    } else if is_high(u[0]) || is_low(u[0]) {
        seq!['\u{fffd}'] + utf16_text(u.skip(1))
    } else {
        seq![u[0] as char] + utf16_text(u.skip(1))
    }
}

/// Appends the UTF-16 units of `s`.
pub fn push_utf16(out: &mut Vec<u16>, s: &str)
    ensures
        final(out)@ == old(out)@ + utf16(s@),
{
    let cs = to_chars(s);
    let mut i: usize = 0;
    while i < cs.len()
        invariant
            i <= cs@.len(),
            cs@ == s@,
            out@ == old(out)@ + utf16(s@.take(i as int)),
        decreases cs@.len() - i,
    {
        let n: u32 = cs[i] as u32;
        if n < 0x10000 {
            out.push(n as u16);
        } else {
            proof {
                char_is_scalar(cs@[i as int]);
            }
            let m: u32 = n - 0x10000;
            out.push((0xd800 + m / 0x400) as u16);
            out.push((0xdc00 + m % 0x400) as u16);
        }
        assert(s@.take(i + 1).drop_last() == s@.take(i as int));
        assert(out@ =~= old(out)@ + utf16(s@.take(i + 1)));
        i += 1;
    }
    assert(s@.take(s@.len() as int) == s@);
}

/// The null-terminated UTF-16 form of `s`.
pub fn to_wide(s: &str) -> (r: Vec<u16>)
    ensures
        r@ == utf16(s@).push(0),
{
    let mut out: Vec<u16> = Vec::new();
    push_utf16(&mut out, s);
    assert(out@ =~= utf16(s@));
    out.push(0);
    out
}

/// The text that UTF-16 units spell.
pub fn from_wide(u: &[u16]) -> (r: String)
    ensures
        r@ == utf16_text(u@),
{
    let mut out = String::new();
    let mut i: usize = 0;
    assert(u@.skip(0) == u@);
    while i < u.len()
        invariant
            i <= u.len(),
            utf16_text(u@) == out@ + utf16_text(u@.skip(i as int)),
        decreases u@.len() - i,
    {
        let a: u16 = u[i];
        if u.len() - i >= 2 && 0xd800 <= a && a <= 0xdbff && 0xdc00 <= u[i + 1] && u[i + 1] <= 0xdfff {
            let n: u32 = 0x10000 + (a as u32 - 0xd800) * 0x400 + (u[i + 1] as u32 - 0xdc00);
            if let Some(c) = char::from_u32(n) {
                out.push(c);
            }
            assert(u@.skip(i as int).skip(2) == u@.skip(i + 2));
            assert(out@ + utf16_text(u@.skip(i + 2)) =~= utf16_text(u@));
            i += 2;
        } else {
            if let Some(c) = char::from_u32(a as u32) {
                out.push(c);
            } else {
                out.push('\u{fffd}');
            }
            assert(u@.skip(i as int).skip(1) == u@.skip(i + 1));
            assert(out@ + utf16_text(u@.skip(i + 1)) =~= utf16_text(u@));
            i += 1;
        }
    }
    assert(out@ + utf16_text(u@.skip(i as int)) =~= out@);
    out
}

/// The part of a buffer in front of its first null.
pub open spec fn before_null(u: Seq<u16>) -> Seq<u16>
    decreases u.len(),
{
    if u.len() == 0 || u[0] == 0 {
        seq![]
    } else {
        seq![u[0]] + before_null(u.skip(1))
    }
}

/// The text in front of the first null.
pub fn text_before_null(u: &[u16]) -> (r: String)
    ensures
        r@ == utf16_text(before_null(u@)),
{
    let mut out: Vec<u16> = Vec::new();
    let mut i: usize = 0;
    assert(u@.skip(0) == u@);
    while i < u.len() && u[i] != 0
        invariant
            i <= u@.len(),
            before_null(u@) == out@ + before_null(u@.skip(i as int)),
        decreases u@.len() - i,
    {
        out.push(u[i]);
        assert(u@.skip(i as int).skip(1) == u@.skip(i + 1));
        assert(out@ + before_null(u@.skip(i + 1)) =~= before_null(u@));
        i += 1;
    }
    assert(out@ =~= before_null(u@));
    from_wide(&out)
}

/// The little-endian bytes of UTF-16 units.
pub open spec fn wide_bytes(u: Seq<u16>) -> Seq<u8> {
    Seq::new(
        2 * u.len(),
        |i: int|
            if i % 2 == 0 {
                (u[i / 2] % 256) as u8
            } else {
                (u[i / 2] / 256) as u8
            },
    )
}

/// Appends the little-endian bytes of `u`.
pub fn push_wide_bytes(out: &mut Vec<u8>, u: &[u16])
    ensures
        final(out)@ == old(out)@ + wide_bytes(u@),
{
    let mut i: usize = 0;
    assert(out@ + wide_bytes(u@.take(0)) =~= out@);
    while i < u.len()
        invariant
            i <= u@.len(),
            out@ == old(out)@ + wide_bytes(u@.take(i as int)),
        decreases u@.len() - i,
    {
        out.push((u[i] % 256) as u8);
        out.push((u[i] / 256) as u8);
        assert(out@ =~= old(out)@ + wide_bytes(u@.take(i + 1)));
        i += 1;
    }
    assert(u@.take(u@.len() as int) == u@);
}

/// What is written as UTF-16 reads back as the same text.
pub proof fn law_utf16_round_trip(s: Seq<char>)
    ensures
        utf16_text(utf16(s)) == s,
    decreases s.len(),
{
    if s.len() > 0 {
        law_utf16_round_trip(s.skip(1));
        lemma_utf16_first(s);
        lemma_units_read_back(s[0], utf16(s.skip(1)));
        assert(seq![s[0]] + s.skip(1) =~= s);
    } else {
        assert(utf16_text(utf16(s)) =~= s);
    }
}

/// The units of a text start with those of its first character.
proof fn lemma_utf16_first(s: Seq<char>)
    requires
        s.len() > 0,
    ensures
        utf16(s) == units(s[0]) + utf16(s.skip(1)),
    decreases s.len(),
{
    if s.len() == 1 {
        assert(s.drop_last() =~= seq![]);
        assert(s.skip(1) =~= seq![]);
        assert(utf16(s) =~= units(s[0]) + utf16(s.skip(1)));
    } else {
        lemma_utf16_first(s.drop_last());
        assert(s.drop_last().skip(1) =~= s.skip(1).drop_last());
        assert(utf16(s) =~= units(s[0]) + utf16(s.skip(1)));
    }
}

/// The units of a character read as that character, whatever follows.
proof fn lemma_units_read_back(c: char, rest: Seq<u16>)
    ensures
        utf16_text(units(c) + rest) == seq![c] + utf16_text(rest),
{
    let u = units(c) + rest;
    char_is_scalar(c);
    if (c as u32) < 0x10000 {
        assert(u.skip(1) =~= rest);
    } else {
        assert(u.skip(2) =~= rest);
    }
}

/// Null-terminating a text without nulls and reading up to the null gives it
/// back.
pub proof fn law_wide_round_trip(s: Seq<char>)
    requires
        !s.contains('\0'),
    ensures
        utf16_text(before_null(utf16(s).push(0))) == s,
{
    law_utf16_round_trip(s);
    lemma_units_not_null(s);
    lemma_before_null_whole(utf16(s));
}

proof fn lemma_unit_not_null(c: char, j: int)
    requires
        c != '\0',
        0 <= j < units(c).len(),
    ensures
        units(c)[j] != 0,
{
    char_is_scalar(c);
    let n = c as u32;
    assert(n != 0);
    if n >= 0x10000 {
        assert(j == 0 || j == 1);
        assert(n - 0x10000 < 0x100000);
        assert(0 <= (n - 0x10000) / 0x400 < 0x400);
    } else {
        assert(units(c)[0] == n as u16);
        assert(j == 0);
    }
}

proof fn lemma_units_not_null(s: Seq<char>)
    requires
        !s.contains('\0'),
    ensures
        !utf16(s).contains(0),
    decreases s.len(),
{
    if s.len() > 0 {
        assert(!s.drop_last().contains('\0')) by {
            if s.drop_last().contains('\0') {
                let i = choose|i: int| 0 <= i < s.drop_last().len() && s.drop_last()[i] == '\0';
                assert(s[i] == '\0');
            }
        }
        lemma_units_not_null(s.drop_last());
        assert(s[s.len() - 1] != '\0');
        if utf16(s).contains(0) {
            let i = choose|i: int| 0 <= i < utf16(s).len() && utf16(s)[i] == 0;
            let n = utf16(s.drop_last()).len();
            if i < n {
                assert(utf16(s.drop_last())[i] == 0);
            } else {
                lemma_unit_not_null(s.last(), i - n);
            }
        }
    }
}

proof fn lemma_before_null_whole(u: Seq<u16>)
    requires
        !u.contains(0),
    ensures
        before_null(u.push(0)) == u,
    decreases u.len(),
{
    if u.len() > 0 {
        assert(u[0] != 0);
        assert(!u.skip(1).contains(0)) by {
            if u.skip(1).contains(0) {
                let i = choose|i: int| 0 <= i < u.skip(1).len() && u.skip(1)[i] == 0;
                assert(u[i + 1] == 0);
            }
        }
        lemma_before_null_whole(u.skip(1));
        assert(u.push(0).skip(1) =~= u.skip(1).push(0));
        assert(seq![u[0]] + u.skip(1) =~= u);
    } else {
        assert(before_null(u.push(0)) =~= u);
    }
}

// ---------------------------------------------------------------------
// UTF-16 unit by unit.
// ---------------------------------------------------------------------
/// A unit outside of the surrogates is a character, a pair of surrogates is one
/// beyond the first 65536, and a surrogate without its other half reads as the
/// replacement character.
pub proof fn law_units_read(u: u16, lo: u16, rest: Seq<u16>)
    ensures
        utf16_text(seq![]) == Seq::<char>::empty(),
        !(0xd800 <= u <= 0xdfff) ==> utf16_text(seq![u] + rest) == seq![u as char] + utf16_text(
            rest,
        ),
        0xd800 <= u <= 0xdbff && 0xdc00 <= lo <= 0xdfff ==> utf16_text(seq![u, lo] + rest) == seq![
            (0x1_0000 + 0x400 * (u - 0xd800) + (lo - 0xdc00)) as char,
        ] + utf16_text(rest),
        0xdc00 <= u <= 0xdfff ==> utf16_text(seq![u] + rest) == seq!['\u{fffd}'] + utf16_text(rest),
        0xd800 <= u <= 0xdbff && (rest.len() == 0 || !(0xdc00 <= rest[0] <= 0xdfff)) ==> utf16_text(
            seq![u] + rest,
        ) == seq!['\u{fffd}'] + utf16_text(rest),
{
    assert((seq![u] + rest).skip(1) =~= rest);
    assert((seq![u, lo] + rest).skip(2) =~= rest);
    assert(utf16_text(seq![]) =~= Seq::<char>::empty());
    let v = seq![u] + rest;
    assert(rest.len() > 0 ==> v[1] == rest[0]);
}

/// Texts are written one after the other, and each character of the first 65536
/// as the unit of its number.
pub proof fn law_units_written(a: Seq<char>, b: Seq<char>, c: char)
    ensures
        utf16(a + b) == utf16(a) + utf16(b),
        (c as u32) < 0x1_0000 ==> utf16(seq![c]) == seq![c as u16],
        c as u32 >= 0x1_0000 ==> utf16(seq![c]).len() == 2 && 0xd800 <= utf16(seq![c])[0] <= 0xdbff
            && 0xdc00 <= utf16(seq![c])[1] <= 0xdfff && 0x1_0000 + 0x400 * (utf16(seq![c])[0]
            - 0xd800) + (utf16(seq![c])[1] - 0xdc00) == c as u32,
{
    lemma_utf16_concat(a, b);
    let none: Seq<char> = seq![];
    char_is_scalar(c);
    assert(seq![c].drop_last() =~= none);
    assert(utf16(none) + units(c) =~= units(c));
    if c as u32 >= 0x1_0000 {
        let m = c as u32 - 0x1_0000;
        assert(0 <= m < 0x10_0000);
        assert(0 <= m / 0x400 < 0x400);
        assert(m == 0x400 * (m / 0x400) + m % 0x400);
    }
}

proof fn lemma_utf16_concat(a: Seq<char>, b: Seq<char>)
    ensures
        utf16(a + b) == utf16(a) + utf16(b),
    decreases b.len(),
{
    if b.len() > 0 {
        assert((a + b).drop_last() =~= a + b.drop_last());
        assert((a + b).last() == b.last());
        lemma_utf16_concat(a, b.drop_last());
        assert(utf16(a + b) =~= utf16(a) + utf16(b));
    } else {
        assert(a + b =~= a);
        assert(utf16(a) + utf16(b) =~= utf16(a));
    }
}

/// A buffer is read up to its first null, or as a whole where it has none.
pub proof fn law_before_null(a: Seq<u16>, rest: Seq<u16>)
    requires
        !a.contains(0),
    ensures
        before_null(a + seq![0u16] + rest) == a,
        before_null(a) == a,
    decreases a.len(),
{
    let s = a + seq![0u16] + rest;
    if a.len() > 0 {
        assert(a.contains(a[0]));
        assert(!a.skip(1).contains(0)) by {
            if a.skip(1).contains(0) {
                let i = choose|i: int| 0 <= i < a.skip(1).len() && a.skip(1)[i] == 0;
                assert(a[i + 1] == 0);
            }
        }
        law_before_null(a.skip(1), rest);
        assert(s[0] == a[0]);
        assert(s.skip(1) =~= a.skip(1) + seq![0u16] + rest);
        assert(seq![a[0]] + a.skip(1) =~= a);
    } else {
        assert(s[0] == 0);
        assert(before_null(s) =~= a);
        assert(before_null(a) =~= a);
    }
}

/// Each unit takes two bytes, the less significant one first.
pub proof fn law_wide_bytes(u: Seq<u16>, i: int)
    requires
        0 <= i < u.len(),
    ensures
        wide_bytes(u).len() == 2 * u.len(),
        wide_bytes(u)[2 * i] + 256 * wide_bytes(u)[2 * i + 1] == u[i],
{
    assert((2 * i) / 2 == i && (2 * i + 1) / 2 == i);
}

/// A text without nulls is what a buffer holds that starts with it and a null,
/// whatever follows, and a buffer that holds nothing else.
pub proof fn law_text_up_to_null(s: Seq<char>, rest: Seq<u16>)
    requires
        !s.contains('\0'),
    ensures
        utf16_text(before_null(utf16(s) + seq![0u16] + rest)) == s,
        utf16_text(before_null(utf16(s))) == s,
{
    lemma_units_not_null(s);
    law_before_null(utf16(s), rest);
    law_utf16_round_trip(s);
}

} // verus!
