//! HTML fragments as they come over the clipboard, read as plain text.

use vstd::prelude::*;
use vstd::string::*;
use vstd::utf8::*;

use crate::text::{find, find_char, from_chars, parse_u32, read_leading_digits, read_number, spells, to_chars};
use crate::text::{all_digits, contains_text, decimal, digit_of, digit_values, find_from, index_from};
use crate::text::{law_decimal_reads_back, law_digits, law_leading_digits, leading_digits};
use crate::text::{lemma_decimal_value, lemma_find_from, lemma_index_from, lemma_index_is};
use crate::text::{number, occurs_at, parsed_u32, scalar_char};

verus! {

// ---------------------------------------------------------------------
// Tags.
// ---------------------------------------------------------------------
/// What is left of `s` once tags are taken out, where `depth` tags are open
/// at its start.
pub open spec fn without_tags(s: Seq<char>, depth: nat) -> Seq<char>
    decreases s.len(),
{
    if s.len() == 0 {
        seq![]
    } else if s[0] == '<' {
        without_tags(s.skip(1), depth + 1)
    } else if s[0] == '>' && depth > 0 {
        without_tags(s.skip(1), (depth - 1) as nat)
    } else if depth == 0 {
        seq![s[0]] + without_tags(s.skip(1), 0)
    } else {
        without_tags(s.skip(1), depth)
    }
}

/// `s` without everything between `<` and `>`, however deep they nest.
pub fn strip_html_tags(s: &str) -> (r: String)
    ensures
        r@ == without_tags(s@, 0),
{
    let cs = to_chars(s);
    let mut out = String::new();
    let mut depth: usize = 0;
    let mut i: usize = 0;
    assert(cs@.skip(0) == s@);
    while i < cs.len()
        invariant
            depth <= i <= cs.len(),
            without_tags(s@, 0) == out@ + without_tags(cs@.skip(i as int), depth as nat),
        decreases cs@.len() - i,
    {
        let c: char = cs[i];
        assert(cs@.skip(i as int).skip(1) == cs@.skip(i + 1));
        if c == '<' {
            depth += 1;
        } else if c == '>' && depth > 0 {
            depth -= 1;
        } else if depth == 0 {
            out.push(c);
            assert(out@ + without_tags(cs@.skip(i + 1), 0) =~= without_tags(s@, 0));
        }
        i += 1;
    }
    assert(out@ + without_tags(cs@.skip(i as int), depth as nat) =~= out@);
    out
}

/// Text without `<` is left as it is.
pub proof fn law_strip_keeps_plain_text(s: Seq<char>)
    requires
        !s.contains('<'),
    ensures
        without_tags(s, 0) == s,
    decreases s.len(),
{
    if s.len() > 0 {
        assert(s[0] != '<');
        assert forall|i: int| 0 <= i < s.skip(1).len() implies #[trigger] s.skip(1)[i] != '<' by {
            assert(s[i + 1] != '<');
        }
        law_strip_keeps_plain_text(s.skip(1));
        assert(seq![s[0]] + s.skip(1) =~= s);
    } else {
        assert(without_tags(s, 0) =~= s);
    }
}

/// No `<` is left by stripping tags.
pub proof fn law_strip_leaves_no_tag_start(s: Seq<char>, depth: nat)
    ensures
        !without_tags(s, depth).contains('<'),
    decreases s.len(),
{
    if s.len() > 0 {
        let next: nat = if s[0] == '<' {
            depth + 1
        } else if s[0] == '>' && depth > 0 {
            (depth - 1) as nat
        } else {
            depth
        };
        let rest = without_tags(s.skip(1), next);
        law_strip_leaves_no_tag_start(s.skip(1), next);
        if without_tags(s, depth).contains('<') {
            let i = choose|i: int|
                0 <= i < without_tags(s, depth).len() && without_tags(s, depth)[i] == '<';
            if without_tags(s, depth) == seq![s[0]] + rest && i > 0 {
                assert(rest[i - 1] == '<');
            }
        }
    }
}

// ---------------------------------------------------------------------
// Entities.
// ---------------------------------------------------------------------
/// The character that the entity `&name;` stands for.
pub open spec fn entity(name: Seq<char>) -> Option<char> {
    if name == "amp"@ {
        Some('&')
    } else if name == "lt"@ {
        Some('<')
    } else if name == "gt"@ {
        Some('>')
    } else if name == "quot"@ {
        Some('"')
    } else if name == "apos"@ {
        Some('\'')
    } else if name == "nbsp"@ {
        Some(' ')
    } else if name.len() >= 2 && name[0] == '#' && (name[1] == 'x' || name[1] == 'X') {
        match parsed_u32(name.skip(2), 16) {
            Some(n) => scalar_char(n as nat),
            None => None,
        }
    } else if name.len() >= 1 && name[0] == '#' {
        match parsed_u32(name.skip(1), 10) {
            Some(n) => scalar_char(n as nat),
            None => None,
        }
    } else {
        None
    }
}

/// `s` with its entities replaced by what they stand for. An `&` that starts
/// no known entity stands for itself.
pub open spec fn without_entities(s: Seq<char>) -> Seq<char>
    decreases s.len(),
{
    proof {
        lemma_index_from(s, ';', 1);
    }
    if s.len() == 0 {
        seq![]
    } else if s[0] == '&' && index_from(s, ';', 1) is Some && entity(
        s.subrange(1, index_from(s, ';', 1)->0),
    ) is Some {
        let k = index_from(s, ';', 1)->0;
        seq![entity(s.subrange(1, k))->0] + without_entities(s.skip(k + 1))
    } else {
        seq![s[0]] + without_entities(s.skip(1))
    }
}

/// The character that the entity `&name;` stands for.
pub fn read_entity(name: &[char]) -> (r: Option<char>)
    ensures
        r == entity(name@),
{
    if spells(name, "amp") {
        Some('&')
    } else if spells(name, "lt") {
        Some('<')
    } else if spells(name, "gt") {
        Some('>')
    } else if spells(name, "quot") {
        Some('"')
    } else if spells(name, "apos") {
        Some('\'')
    } else if spells(name, "nbsp") {
        Some(' ')
    } else if name.len() >= 2 && name[0] == '#' && (name[1] == 'x' || name[1] == 'X') {
        match parse_u32(&name[2..name.len()], 16) {
            Some(n) => char::from_u32(n),
            None => None,
        }
    } else if name.len() >= 1 && name[0] == '#' {
        match parse_u32(&name[1..name.len()], 10) {
            Some(n) => char::from_u32(n),
            None => None,
        }
    } else {
        None
    }
}

/// Decodes the named and numeric entities common in copied fragments.
pub fn decode_html_entities(s: &str) -> (r: String)
    ensures
        r@ == without_entities(s@),
{
    let cs = to_chars(s);
    let mut out = String::new();
    let mut i: usize = 0;
    assert(cs@.skip(0) == s@);
    while i < cs.len()
        invariant
            i <= cs.len(),
            without_entities(s@) == out@ + without_entities(cs@.skip(i as int)),
        decreases cs@.len() - i,
    {
        let ghost rest = cs@.skip(i as int);
        let ghost before = out@;
        let mut next: usize = i + 1;
        let mut c: char = cs[i];
        assert(rest.skip(1) == cs@.skip(i + 1));
        if c == '&' {
            proof {
                crate::text::lemma_index_from_skip(cs@, ';', i as int, i + 1);
            }
            if let Some(k) = find_char(cs.as_slice(), ';', i + 1) {
                assert(cs@.subrange(i + 1, k as int) == rest.subrange(1, k - i));
                assert(rest.skip(k - i + 1) == cs@.skip(k + 1));
                if let Some(d) = read_entity(&cs[i + 1..k]) {
                    c = d;
                    next = k + 1;
                }
            }
        }
        out.push(c);
        assert(without_entities(rest) == seq![c] + without_entities(cs@.skip(next as int)));
        assert(before + (seq![c] + without_entities(cs@.skip(next as int))) =~= out@
            + without_entities(cs@.skip(next as int)));
        i = next;
    }
    assert(out@ + without_entities(cs@.skip(i as int)) =~= out@);
    out
}

/// Text without `&` is left as it is.
pub proof fn law_decode_keeps_plain_text(s: Seq<char>)
    requires
        !s.contains('&'),
    ensures
        without_entities(s) == s,
    decreases s.len(),
{
    if s.len() > 0 {
        assert(s[0] != '&');
        assert forall|i: int| 0 <= i < s.skip(1).len() implies #[trigger] s.skip(1)[i] != '&' by {
            assert(s[i + 1] != '&');
        }
        law_decode_keeps_plain_text(s.skip(1));
        assert(seq![s[0]] + s.skip(1) =~= s);
    } else {
        assert(without_entities(s) =~= s);
    }
}

// ---------------------------------------------------------------------
// CF_HTML: a `Key:Value` header with byte offsets, then the document.
// ---------------------------------------------------------------------
/// The byte offset that the header gives behind `key`, if the key occurs and a
/// number follows it that a byte offset can be.
pub open spec fn header_offset(s: Seq<char>, key: Seq<char>) -> Option<nat> {
    match find_from(s, key, 0) {
        None => None,
        Some(i) => {
            let digits = leading_digits(s.skip(i + key.len()), 10);
            if digits.len() > 0 && number(digits, 10) <= usize::MAX {
                Some(number(digits, 10))
            } else {
                None
            }
        },
    }
}

/// The byte offset that the header gives behind `key`.
pub fn parse_cf_html_offset(s: &str, key: &str) -> (r: Option<usize>)
    ensures
        r is Some == header_offset(s@, key@) is Some,
        r matches Some(n) ==> header_offset(s@, key@) == Some(n as nat),
{
    let cs = to_chars(s);
    let k = to_chars(key);
    match find(cs.as_slice(), k.as_slice()) {
        None => None,
        Some(i) => {
            proof {
                lemma_find_from(cs@, k@, 0);
                assert(i + k@.len() <= cs.len());
            }
            let digits = read_leading_digits(cs.as_slice(), i + k.len(), 10);
            if digits.len() == 0 {
                return None;
            }
            let n: u128 = read_number(digits.as_slice(), 10);
            if n <= usize::MAX as u128 {
                Some(n as usize)
            } else {
                None
            }
        },
    }
}

/// The last character boundary at or before byte `i`.
pub open spec fn floor_boundary(bytes: Seq<u8>, i: int) -> int
    decreases i,
{
    if i <= 0 {
        0
    } else if is_char_boundary(bytes, i) {
        i
    } else {
        floor_boundary(bytes, i - 1)
    }
}

/// Walks back to a character boundary.
pub fn align_char_boundary(s: &str, i: usize) -> (r: usize)
    ensures
        r == floor_boundary(encode_utf8(s@), i as int),
        r <= i,
        is_char_boundary(encode_utf8(s@), r as int),
{
    let mut k: usize = i;
    proof {
        encode_utf8_valid_utf8(s@);
        is_char_boundary_start_end_of_seq(encode_utf8(s@));
    }
    while k > 0 && !s.is_char_boundary(k)
        invariant
            k <= i,
            floor_boundary(encode_utf8(s@), k as int) == floor_boundary(encode_utf8(s@), i as int),
        decreases k,
    {
        k -= 1;
    }
    k
}

/// Aligning never steps back over a boundary.
proof fn lemma_floor_boundary(bytes: Seq<u8>, lo: int, i: int)
    requires
        0 <= lo <= i,
        is_char_boundary(bytes, lo),
    ensures
        lo <= floor_boundary(bytes, i) <= i,
    decreases i,
{
    if i > lo && !is_char_boundary(bytes, i) {
        lemma_floor_boundary(bytes, lo, i - 1);
    }
}

/// The byte range of the fragment that the header announces, cut back to what
/// is there and to whole characters.
pub open spec fn fragment_range(bytes: Seq<u8>, start: nat, end: nat) -> (int, int) {
    let len = bytes.len() as int;
    let s = floor_boundary(
        bytes,
        if start < len {
            start as int
        } else {
            len
        },
    );
    let e = if end < len {
        end as int
    } else {
        len
    };
    (
        s,
        floor_boundary(
            bytes,
            if e > s {
                e
            } else {
                s
            },
        ),
    )
}

/// The part of a CF_HTML payload that holds the copied markup: the fragment
/// that the header announces, or else everything from the first `<` on.
pub open spec fn cf_html_body(s: Seq<char>) -> Seq<char> {
    match (header_offset(s, "StartFragment:"@), header_offset(s, "EndFragment:"@)) {
        (Some(start), Some(end)) => {
            let range = fragment_range(encode_utf8(s), start, end);
            decode_utf8(encode_utf8(s).subrange(range.0, range.1))
        },
        _ => match index_from(s, '<', 0) {
            Some(i) => s.skip(i),
            None => s,
        },
    }
}

/// The bytes of `s` from `start` to `end`, both character boundaries.
fn sub_text<'a>(s: &'a str, start: usize, end: usize) -> (r: &'a str)
    requires
        start <= end <= encode_utf8(s@).len(),
        is_char_boundary(encode_utf8(s@), start as int),
        is_char_boundary(encode_utf8(s@), end as int),
    ensures
        r@ == decode_utf8(encode_utf8(s@).subrange(start as int, end as int)),
{
    let ghost bytes = encode_utf8(s@);
    let (_, rest) = s.split_at(start);
    let n: usize = end - start;
    proof {
        encode_utf8_valid_utf8(s@);
        encode_utf8_valid_utf8(rest@);
        is_char_boundary_start_end_of_seq(rest.spec_bytes());
        if n < rest.spec_bytes().len() {
            is_char_boundary_iff_not_is_continuation_byte(bytes, end as int);
            is_char_boundary_iff_not_is_continuation_byte(rest.spec_bytes(), n as int);
            assert(rest.spec_bytes()[n as int] == bytes[end as int]);
        }
    }
    let (r, _) = rest.split_at(n);
    proof {
        assert(r.spec_bytes() =~= bytes.subrange(start as int, end as int));
        encode_utf8_decode_utf8(r@);
    }
    r
}

/// The plain text of a CF_HTML payload: the markup that the source meant to
/// share, without tags and with entities decoded.
pub fn cf_html_to_plain(s: &str) -> (r: String)
    ensures
        r@ == without_entities(without_tags(cf_html_body(s@), 0)),
{
    let start = parse_cf_html_offset(s, "StartFragment:");
    let end = parse_cf_html_offset(s, "EndFragment:");
    if let (Some(start), Some(end)) = (start, end) {
        let len: usize = s.as_bytes().len();
        let lo: usize = align_char_boundary(
            s,
            if start < len {
                start
            } else {
                len
            },
        );
        let cut: usize = if end < len {
            end
        } else {
            len
        };
        let most: usize = if cut > lo {
            cut
        } else {
            lo
        };
        let hi: usize = align_char_boundary(s, most);
        proof {
            lemma_floor_boundary(encode_utf8(s@), lo as int, most as int);
        }
        let stripped = strip_html_tags(sub_text(s, lo, hi));
        decode_html_entities(stripped.as_str())
    } else {
        let cs = to_chars(s);
        let from: usize = match find_char(cs.as_slice(), '<', 0) {
            Some(i) => i,
            None => 0,
        };
        let body = from_chars(&cs[from..cs.len()]);
        assert(body@ == cf_html_body(s@));
        let stripped = strip_html_tags(body.as_str());
        decode_html_entities(stripped.as_str())
    }
}

/// Where the header announces a fragment that lies within the payload, at
/// character boundaries, the body is that fragment to the byte.
pub proof fn law_cf_html_fragment(s: Seq<char>, start: nat, end: nat)
    requires
        header_offset(s, "StartFragment:"@) == Some(start),
        header_offset(s, "EndFragment:"@) == Some(end),
        start <= end <= encode_utf8(s).len(),
        is_char_boundary(encode_utf8(s), start as int),
        is_char_boundary(encode_utf8(s), end as int),
    ensures
        encode_utf8(cf_html_body(s)) == encode_utf8(s).subrange(start as int, end as int),
{
    let bytes = encode_utf8(s);
    encode_utf8_valid_utf8(s);
    let head = bytes.subrange(0, end as int);
    valid_utf8_split(bytes, end as int);
    is_char_boundary_start_end_of_seq(head);
    if start < end {
        is_char_boundary_iff_not_is_continuation_byte(bytes, start as int);
        is_char_boundary_iff_not_is_continuation_byte(head, start as int);
        assert(head[start as int] == bytes[start as int]);
    }
    valid_utf8_split(head, start as int);
    let part = bytes.subrange(start as int, end as int);
    assert(head.subrange(start as int, head.len() as int) =~= part);
    decode_utf8_encode_utf8(part);
}

// ---------------------------------------------------------------------
// Markup piece by piece.
// ---------------------------------------------------------------------
/// Text that holds no `<` goes through, and tags are taken out of what follows.
proof fn lemma_strip_after_text(a: Seq<char>, rest: Seq<char>)
    requires
        !a.contains('<'),
    ensures
        without_tags(a + rest, 0) == a + without_tags(rest, 0),
    decreases a.len(),
{
    if a.len() > 0 {
        assert(a[0] != '<');
        assert(!a.skip(1).contains('<')) by {
            if a.skip(1).contains('<') {
                let i = choose|i: int| 0 <= i < a.skip(1).len() && a.skip(1)[i] == '<';
                assert(a[i + 1] == '<');
            }
        }
        assert((a + rest)[0] == a[0]);
        assert((a + rest).skip(1) =~= a.skip(1) + rest);
        lemma_strip_after_text(a.skip(1), rest);
        assert(seq![a[0]] + (a.skip(1) + without_tags(rest, 0)) =~= a + without_tags(rest, 0));
    } else {
        assert(a + rest =~= rest);
        assert(a + without_tags(rest, 0) =~= without_tags(rest, 0));
    }
}

/// What stands inside a tag is taken out up to the next `<` or `>`.
proof fn lemma_strip_inside(t: Seq<char>, rest: Seq<char>, depth: nat)
    requires
        !t.contains('<'),
        !t.contains('>'),
        depth > 0,
    ensures
        without_tags(t + rest, depth) == without_tags(rest, depth),
    decreases t.len(),
{
    if t.len() > 0 {
        assert(t[0] != '<' && t[0] != '>') by {
            assert(t.contains(t[0]));
        }
        let u = t.skip(1);
        assert(!u.contains('<') && !u.contains('>')) by {
            assert forall|i: int| 0 <= i < u.len() implies u[i] != '<' && #[trigger] u[i] != '>' by {
                assert(t.contains(t[i + 1]));
                assert(u[i] == t[i + 1]);
            }
        }
        assert((t + rest)[0] == t[0]);
        assert((t + rest).skip(1) =~= u + rest);
        lemma_strip_inside(u, rest, depth);
    } else {
        assert(t + rest =~= rest);
    }
}

/// A tag is taken out of the text, and nothing else is: what stands in front of
/// it stays, and so does what the rest is without its tags.
pub proof fn law_tag_is_dropped(a: Seq<char>, tag: Seq<char>, rest: Seq<char>)
    requires
        !a.contains('<'),
        !tag.contains('<'),
        !tag.contains('>'),
    ensures
        without_tags(a + seq!['<'] + tag + seq!['>'] + rest, 0) == a + without_tags(rest, 0),
        without_tags(a + seq!['<'] + tag, 0) == a,
{
    let end = seq!['>'] + rest;
    assert(end.skip(1) =~= rest);
    lemma_strip_inside(tag, end, 1);
    let from = seq!['<'] + (tag + end);
    assert(from.skip(1) =~= tag + end);
    lemma_strip_after_text(a, from);
    assert(a + seq!['<'] + tag + seq!['>'] + rest =~= a + from);
    let none: Seq<char> = seq![];
    lemma_strip_inside(tag, none, 1);
    let open = seq!['<'] + (tag + none);
    assert(open.skip(1) =~= tag + none);
    lemma_strip_after_text(a, open);
    assert(a + seq!['<'] + tag =~= a + open);
    assert(a + without_tags(none, 1) =~= a);
}

/// A tag within a tag does not end the outer one.
pub proof fn law_nested_tag_is_dropped(
    a: Seq<char>,
    t: Seq<char>,
    inner: Seq<char>,
    u: Seq<char>,
    rest: Seq<char>,
)
    requires
        !a.contains('<'),
        !t.contains('<') && !t.contains('>'),
        !inner.contains('<') && !inner.contains('>'),
        !u.contains('<') && !u.contains('>'),
    ensures
        without_tags(
            a + seq!['<'] + t + seq!['<'] + inner + seq!['>'] + u + seq!['>'] + rest,
            0,
        ) == a + without_tags(rest, 0),
{
    let last = seq!['>'] + rest;
    assert(last.skip(1) =~= rest);
    lemma_strip_inside(u, last, 1);
    let third = seq!['>'] + (u + last);
    assert(third.skip(1) =~= u + last);
    lemma_strip_inside(inner, third, 2);
    let second = seq!['<'] + (inner + third);
    assert(second.skip(1) =~= inner + third);
    lemma_strip_inside(t, second, 1);
    let first = seq!['<'] + (t + second);
    assert(first.skip(1) =~= t + second);
    lemma_strip_after_text(a, first);
    assert(a + seq!['<'] + t + seq!['<'] + inner + seq!['>'] + u + seq!['>'] + rest =~= a + first);
}

/// The entities with names: there are six.
pub proof fn law_entities(name: Seq<char>)
    ensures
        entity("amp"@) == Some('&'),
        entity("lt"@) == Some('<'),
        entity("gt"@) == Some('>'),
        entity("quot"@) == Some('"'),
        entity("apos"@) == Some('\''),
        entity("nbsp"@) == Some(' '),
        name != "amp"@ && name != "lt"@ && name != "gt"@ && name != "quot"@ && name != "apos"@
            && name != "nbsp"@ && (name.len() == 0 || name[0] != '#') ==> entity(name) is None,
{
    lemma_names_differ();
}

proof fn lemma_names_differ()
    ensures
        "amp"@.len() == 3,
        "lt"@.len() == 2,
        "gt"@.len() == 2,
        "quot"@.len() == 4,
        "apos"@.len() == 4,
        "nbsp"@.len() == 4,
        "amp"@[0] == 'a',
        "lt"@[0] == 'l',
        "gt"@[0] == 'g',
        "quot"@[0] == 'q',
        "apos"@[0] == 'a',
        "nbsp"@[0] == 'n',
{
    reveal_strlit("amp");
    reveal_strlit("lt");
    reveal_strlit("gt");
    reveal_strlit("quot");
    reveal_strlit("apos");
    reveal_strlit("nbsp");
}

/// A name that starts with a number sign is none of the six.
proof fn lemma_no_name(e: Seq<char>)
    requires
        e.len() > 0,
        e[0] == '#',
    ensures
        e != "amp"@ && e != "lt"@ && e != "gt"@ && e != "quot"@ && e != "apos"@ && e != "nbsp"@,
{
    lemma_names_differ();
}

/// Any character can be given by its number in decimal.
pub proof fn law_decimal_entity(n: nat)
    ensures
        entity(seq!['#'] + decimal(n)) == if n < 0xd800 || 0xe000 <= n <= 0x10_ffff {
            Some(n as char)
        } else {
            None
        },
{
    let s = decimal(n);
    let e = seq!['#'] + s;
    assert(e[0] == '#');
    lemma_no_name(e);
    assert(e.skip(1) =~= s);
    law_decimal_reads_back(n);
    lemma_decimal_value(n);
    assert(digit_of(s[0], 10) is Some);
    assert(e[1] == s[0]);
    law_digits(s[0], 0);
}

/// A character by its hexadecimal number, in digits of either case.
pub proof fn law_hex_entity(hex: Seq<char>, capital: bool)
    requires
        hex.len() > 0,
        all_digits(hex, 16),
    ensures
        ({
            let n = number(digit_values(hex, 16), 16);
            entity(
                seq![
                    '#',
                    if capital {
                        'X'
                    } else {
                        'x'
                    },
                ] + hex,
            ) == if n < 0xd800 || 0xe000 <= n <= 0x10_ffff {
                Some(n as char)
            } else {
                None
            }
        }),
{
    let e = seq![
        '#',
        if capital {
            'X'
        } else {
            'x'
        },
    ] + hex;
    assert(e[0] == '#');
    lemma_no_name(e);
    assert(e.skip(2) =~= hex);
    assert(digit_of(hex[0], 16) is Some);
    law_leading_digits(hex, seq![], 16);
    assert(hex + seq![] =~= hex);
}

/// An entity is replaced by what it stands for; an ampersand that starts none
/// stays, and so does all text without one.
pub proof fn law_entity_is_decoded(a: Seq<char>, name: Seq<char>, rest: Seq<char>)
    requires
        !a.contains('&'),
    ensures
        !name.contains(';') ==> (entity(name) matches Some(c) ==> without_entities(
            a + seq!['&'] + name + seq![';'] + rest,
        ) == a + seq![c] + without_entities(rest)),
        !name.contains(';') && entity(name) is None ==> without_entities(
            a + seq!['&'] + name + seq![';'] + rest,
        ) == a + seq!['&'] + without_entities(name + seq![';'] + rest),
        !rest.contains(';') ==> without_entities(a + seq!['&'] + rest) == a + seq!['&']
            + without_entities(rest),
{
    if !name.contains(';') {
        let tail = name + seq![';'] + rest;
        let s = seq!['&'] + tail;
        let front = seq!['&'] + name;
        assert(!front.contains(';')) by {
            if front.contains(';') {
                let i = choose|i: int| 0 <= i < front.len() && front[i] == ';';
                assert(name[i - 1] == ';');
            }
        }
        let k = name.len() as int + 1;
        assert(front + seq![';'] + rest =~= s);
        lemma_index_from(s, ';', 1);
        assert(s[k] == ';');
        if index_from(s, ';', 1) is Some {
            let j = index_from(s, ';', 1)->0;
            if j < k {
                assert(front[j] == s[j]);
                assert(front.contains(';'));
            }
        }
        assert(index_from(s, ';', 1) == Some(k));
        assert(s.subrange(1, k) =~= name);
        assert(s.skip(k + 1) =~= rest);
        assert(s.skip(1) =~= tail);
        lemma_decode_after_text(a, s);
        assert(a + s =~= a + seq!['&'] + name + seq![';'] + rest);
        match entity(name) {
            Some(c) => {
                assert(a + (seq![c] + without_entities(rest)) =~= a + seq![c] + without_entities(
                    rest,
                ));
            },
            None => {
                assert(a + (seq!['&'] + without_entities(tail)) =~= a + seq!['&']
                    + without_entities(tail));
            },
        }
    }
    if !rest.contains(';') {
        let s = seq!['&'] + rest;
        lemma_index_from(s, ';', 1);
        if index_from(s, ';', 1) is Some {
            let j = index_from(s, ';', 1)->0;
            assert(rest[j - 1] == ';');
        }
        assert(s.skip(1) =~= rest);
        lemma_decode_after_text(a, s);
        assert(a + s =~= a + seq!['&'] + rest);
        assert(a + (seq!['&'] + without_entities(rest)) =~= a + seq!['&'] + without_entities(rest));
    }
}

proof fn lemma_decode_after_text(a: Seq<char>, rest: Seq<char>)
    requires
        !a.contains('&'),
    ensures
        without_entities(a + rest) == a + without_entities(rest),
    decreases a.len(),
{
    if a.len() > 0 {
        assert(a.contains(a[0]));
        assert(!a.skip(1).contains('&')) by {
            if a.skip(1).contains('&') {
                let i = choose|i: int| 0 <= i < a.skip(1).len() && a.skip(1)[i] == '&';
                assert(a[i + 1] == '&');
            }
        }
        assert((a + rest)[0] == a[0]);
        assert((a + rest).skip(1) =~= a.skip(1) + rest);
        lemma_decode_after_text(a.skip(1), rest);
        assert(seq![a[0]] + (a.skip(1) + without_entities(rest)) =~= a + without_entities(rest));
    } else {
        assert(a + rest =~= rest);
        assert(a + without_entities(rest) =~= without_entities(rest));
    }
}

/// `s` as it is written in markup: ampersands and angle brackets as entities.
pub open spec fn escaped(s: Seq<char>) -> Seq<char>
    decreases s.len(),
{
    if s.len() == 0 {
        seq![]
    } else {
        (if s[0] == '&' {
            "&amp;"@
        } else if s[0] == '<' {
            "&lt;"@
        } else if s[0] == '>' {
            "&gt;"@
        } else {
            seq![s[0]]
        }) + escaped(s.skip(1))
    }
}

/// Any text that is escaped comes back as it was.
pub proof fn law_escaped_text_reads_back(s: Seq<char>)
    ensures
        without_tags(escaped(s), 0) == escaped(s),
        without_entities(without_tags(escaped(s), 0)) == s,
{
    lemma_escaped(s);
    law_strip_keeps_plain_text(escaped(s));
}

proof fn lemma_escaped(s: Seq<char>)
    ensures
        !escaped(s).contains('<'),
        without_entities(escaped(s)) == s,
    decreases s.len(),
{
    reveal_strlit("&amp;");
    reveal_strlit("&lt;");
    reveal_strlit("&gt;");
    reveal_strlit("amp");
    reveal_strlit("lt");
    reveal_strlit("gt");
    if s.len() == 0 {
        assert(without_entities(escaped(s)) =~= s);
    } else {
        let rest = escaped(s.skip(1));
        lemma_escaped(s.skip(1));
        let none: Seq<char> = seq![];
        law_entities(none);
        assert(seq![s[0]] + s.skip(1) =~= s);
        if s[0] == '&' {
            law_entity_is_decoded(none, "amp"@, rest);
            assert(escaped(s) =~= none + seq!['&'] + "amp"@ + seq![';'] + rest);
            assert(none + seq!['&'] + without_entities(rest) =~= seq!['&'] + s.skip(1));
        } else if s[0] == '<' {
            law_entity_is_decoded(none, "lt"@, rest);
            assert(escaped(s) =~= none + seq!['&'] + "lt"@ + seq![';'] + rest);
            assert(none + seq!['<'] + without_entities(rest) =~= seq!['<'] + s.skip(1));
        } else if s[0] == '>' {
            law_entity_is_decoded(none, "gt"@, rest);
            assert(escaped(s) =~= none + seq!['&'] + "gt"@ + seq![';'] + rest);
            assert(none + seq!['>'] + without_entities(rest) =~= seq!['>'] + s.skip(1));
        } else {
            let one = seq![s[0]];
            assert(!one.contains('&'));
            lemma_decode_after_text(one, rest);
        }
        assert forall|i: int| 0 <= i < escaped(s).len() implies #[trigger] escaped(s)[i] != '<' by {
            let n = escaped(s).len() - rest.len();
            if i >= n {
                assert(escaped(s)[i] == rest[i - n]);
                assert(rest.contains(rest[i - n]));
            }
        }
    }
}

/// A header gives the offset that stands in decimal behind the first place of
/// its key, and none where the key does not occur or no digit follows it.
pub proof fn law_header_offset(
    s: Seq<char>,
    pre: Seq<char>,
    key: Seq<char>,
    n: nat,
    post: Seq<char>,
)
    requires
        s == pre + key + decimal(n) + post,
        forall|i: int| 0 <= i < pre.len() ==> !#[trigger] occurs_at(s, key, i),
        post.len() > 0 ==> !('0' <= post[0] <= '9'),
        n <= usize::MAX,
    ensures
        header_offset(s, key) == Some(n),
{
    let at = pre.len() as int;
    lemma_find_from(s, key, 0);
    assert(s.subrange(at, at + key.len()) =~= key);
    assert(occurs_at(s, key, at));
    assert(find_from(s, key, 0) == Some(at));
    assert(s.skip(at + key.len()) =~= decimal(n) + post);
    lemma_decimal_value(n);
    if post.len() > 0 {
        law_digits(post[0], 0);
    }
    law_leading_digits(decimal(n), post, 10);
}

/// A header gives no offset where its key does not occur, where no digit
/// follows the first place of it, or where the number is larger than an offset
/// can be.
pub proof fn law_no_header_offset(
    s: Seq<char>,
    pre: Seq<char>,
    key: Seq<char>,
    n: nat,
    post: Seq<char>,
)
    ensures
        !contains_text(s, key) ==> header_offset(s, key) is None,
        s == pre + key + post && (forall|i: int|
            0 <= i < pre.len() ==> !#[trigger] occurs_at(s, key, i)) && (post.len() == 0 || !('0'
            <= post[0] <= '9')) ==> header_offset(s, key) is None,
        s == pre + key + decimal(n) + post && (forall|i: int|
            0 <= i < pre.len() ==> !#[trigger] occurs_at(s, key, i)) && (post.len() == 0 || !('0'
            <= post[0] <= '9')) && n > usize::MAX ==> header_offset(s, key) is None,
{
    lemma_find_from(s, key, 0);
    let at = pre.len() as int;
    let none: Seq<char> = seq![];
    if post.len() > 0 {
        law_digits(post[0], 0);
    }
    if s == pre + key + post && (forall|i: int|
        0 <= i < pre.len() ==> !#[trigger] occurs_at(s, key, i)) && (post.len() == 0 || !('0'
        <= post[0] <= '9')) {
        assert(s.subrange(at, at + key.len()) =~= key);
        assert(occurs_at(s, key, at));
        assert(find_from(s, key, 0) == Some(at));
        assert(s.skip(at + key.len()) =~= post);
        law_leading_digits(none, post, 10);
        assert(none + post =~= post);
    }
    if s == pre + key + decimal(n) + post && (forall|i: int|
        0 <= i < pre.len() ==> !#[trigger] occurs_at(s, key, i)) && (post.len() == 0 || !('0'
        <= post[0] <= '9')) {
        assert(s.subrange(at, at + key.len()) =~= key);
        assert(occurs_at(s, key, at));
        assert(find_from(s, key, 0) == Some(at));
        assert(s.skip(at + key.len()) =~= decimal(n) + post);
        lemma_decimal_value(n);
        law_leading_digits(decimal(n), post, 10);
    }
}

/// Without a header the body is the whole payload from its first `<` on, or all
/// of it where there is none. A header needs both of its offsets.
pub proof fn law_body_without_header(s: Seq<char>, a: Seq<char>, b: Seq<char>)
    requires
        header_offset(s, "StartFragment:"@) is None || header_offset(s, "EndFragment:"@) is None,
        !a.contains('<'),
    ensures
        s == a + seq!['<'] + b ==> cf_html_body(s) == seq!['<'] + b,
        s == a ==> cf_html_body(s) == a,
{
    if s == a + seq!['<'] + b {
        lemma_index_is(a, '<', b);
        assert(s.skip(a.len() as int) =~= seq!['<'] + b);
    }
    if s == a {
        lemma_index_is(a, '<', b);
    }
}

/// Offsets that lie beyond the end of the payload, or within a character, are
/// cut back to the last place at which a character starts or the payload ends;
/// a fragment that ends before it starts is empty.
pub proof fn law_fragment_range(s: Seq<char>, start: nat, end: nat)
    ensures
        ({
            let bytes = encode_utf8(s);
            let (lo, hi) = fragment_range(bytes, start, end);
            &&& 0 <= lo <= hi <= bytes.len()
            &&& is_char_boundary(bytes, lo)
            &&& is_char_boundary(bytes, hi)
            &&& lo <= start
            &&& forall|k: int|
                lo < k <= start && k <= bytes.len() ==> !#[trigger] is_char_boundary(bytes, k)
            &&& lo <= end ==> hi <= end
            &&& end <= lo ==> hi == lo
            &&& forall|k: int|
                hi < k <= end && k <= bytes.len() ==> !#[trigger] is_char_boundary(bytes, k)
        }),
{
    let bytes = encode_utf8(s);
    encode_utf8_valid_utf8(s);
    is_char_boundary_start_end_of_seq(bytes);
    let len = bytes.len() as int;
    let first = if start < len {
        start as int
    } else {
        len
    };
    lemma_floor(bytes, first);
    let lo = floor_boundary(bytes, first);
    let cut = if end < len {
        end as int
    } else {
        len
    };
    let most = if cut > lo {
        cut
    } else {
        lo
    };
    lemma_floor(bytes, most);
    lemma_floor_boundary(bytes, lo, most);
}

/// A place within a character is moved back to where the character starts, and
/// any other is left.
pub proof fn law_char_boundary(s: Seq<char>, i: int)
    requires
        0 <= i,
    ensures
        ({
            let bytes = encode_utf8(s);
            let at = floor_boundary(bytes, i);
            &&& 0 <= at <= i
            &&& is_char_boundary(bytes, at)
            &&& forall|k: int| at < k <= i ==> !#[trigger] is_char_boundary(bytes, k)
        }),
{
    encode_utf8_valid_utf8(s);
    is_char_boundary_start_end_of_seq(encode_utf8(s));
    lemma_floor(encode_utf8(s), i);
}

proof fn lemma_floor(bytes: Seq<u8>, i: int)
    requires
        0 <= i,
        is_char_boundary(bytes, 0),
    ensures
        0 <= floor_boundary(bytes, i) <= i,
        is_char_boundary(bytes, floor_boundary(bytes, i)),
        forall|k: int|
            floor_boundary(bytes, i) < k <= i ==> !#[trigger] is_char_boundary(bytes, k),
    decreases i,
{
    if i > 0 && !is_char_boundary(bytes, i) {
        lemma_floor(bytes, i - 1);
    }
}

/// Where the header gives both offsets the body is the part of the payload
/// between them, cut back to what is there.
pub proof fn law_cf_html_body(s: Seq<char>, start: nat, end: nat)
    requires
        header_offset(s, "StartFragment:"@) == Some(start),
        header_offset(s, "EndFragment:"@) == Some(end),
    ensures
        ({
            let (lo, hi) = fragment_range(encode_utf8(s), start, end);
            encode_utf8(cf_html_body(s)) == encode_utf8(s).subrange(lo, hi)
        }),
{
    let bytes = encode_utf8(s);
    let (lo, hi) = fragment_range(bytes, start, end);
    law_fragment_range(s, start, end);
    encode_utf8_valid_utf8(s);
    let head = bytes.subrange(0, hi);
    valid_utf8_split(bytes, hi);
    is_char_boundary_start_end_of_seq(head);
    if lo < hi {
        is_char_boundary_iff_not_is_continuation_byte(bytes, lo);
        is_char_boundary_iff_not_is_continuation_byte(head, lo);
        assert(head[lo] == bytes[lo]);
    }
    valid_utf8_split(head, lo);
    let part = bytes.subrange(lo, hi);
    assert(head.subrange(lo, head.len() as int) =~= part);
    decode_utf8_encode_utf8(part);
}

} // verus!
