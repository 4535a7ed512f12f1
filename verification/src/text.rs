//! Character-level text helpers: white space, trimming, searching, numbers.
//!
//! Strings are modelled by their characters (`Seq<char>`). The executable
//! helpers work on `&[char]`, so every index is a character index.

use vstd::prelude::*;
use vstd::utf8::*;

verus! {

/// `String::push` appends the given character to the end of the string.
pub assume_specification[ String::push ](s: &mut String, c: char)
    ensures
        final(s)@ == old(s)@.push(c),
;

/// `char::from_u32` gives the character with the code point `i`, and `None`
/// where `i` is a surrogate or lies beyond the last code point.
pub assume_specification[ char::from_u32 ](i: u32) -> (r: Option<char>)
    ensures
        r == scalar_char(i as nat),
;

/// The character with code point `n`, if there is one.
pub open spec fn scalar_char(n: nat) -> Option<char> {
    if n <= 0x10ffff && !(0xd800 <= n <= 0xdfff) {
        Some(n as char)
    } else {
        None
    }
}

// ---------------------------------------------------------------------
// Conversions.
// ---------------------------------------------------------------------
/// The characters of `s`, in order.
pub fn to_chars(s: &str) -> (r: Vec<char>)
    ensures
        r@ == s@,
{
    let mut out: Vec<char> = Vec::new();
    for c in it: s.chars()
        invariant
            out@ == s@.take(it.index()),
            it.seq() == s@,
    {
        out.push(c);
        assert(s@.take(it.index() + 1) == s@.take(it.index()).push(c));
    }
    assert(s@.take(s@.len() as int) == s@);
    out
}

/// Appends the characters of `cs` to `out`.
pub fn push_chars(out: &mut String, cs: &[char])
    ensures
        final(out)@ == old(out)@ + cs@,
{
    let mut i: usize = 0;
    while i < cs.len()
        invariant
            i <= cs@.len(),
            out@ == old(out)@ + cs@.take(i as int),
        decreases cs@.len() - i,
    {
        out.push(cs[i]);
        assert(cs@.take(i + 1) == cs@.take(i as int).push(cs@[i as int]));
        i += 1;
    }
    assert(cs@.take(cs@.len() as int) == cs@);
}

/// The string that holds the characters of `cs`, in order.
pub fn from_chars(cs: &[char]) -> (r: String)
    ensures
        r@ == cs@,
{
    let mut out = String::new();
    push_chars(&mut out, cs);
    out
}

/// Whether `cs` spells out `lit`.
pub fn spells(cs: &[char], lit: &str) -> (r: bool)
    ensures
        r == (cs@ == lit@),
{
    let l = to_chars(lit);
    if cs.len() != l.len() {
        return false;
    }
    let mut i: usize = 0;
    while i < cs.len()
        invariant
            i <= cs@.len(),
            cs@.len() == l@.len(),
            l@ == lit@,
            cs@.take(i as int) == l@.take(i as int),
        decreases cs@.len() - i,
    {
        if cs[i] != l[i] {
            assert(cs@[i as int] != l@[i as int]);
            return false;
        }
        assert(cs@.take(i + 1) == cs@.take(i as int).push(cs@[i as int]));
        assert(l@.take(i + 1) == l@.take(i as int).push(l@[i as int]));
        i += 1;
    }
    assert(cs@.take(cs@.len() as int) == cs@);
    assert(l@.take(l@.len() as int) == l@);
    true
}

/// Whether two strings hold the same characters.
pub fn same_text(a: &str, b: &str) -> (r: bool)
    ensures
        r == (a@ == b@),
{
    a.to_owned() == b.to_owned()
}

/// `c` in lower case, where it is an ASCII letter.
pub open spec fn ascii_lower(c: char) -> char {
    if 65 <= c as u32 <= 90 {
        (c as u32 + 32) as char
    } else {
        c
    }
}

/// `c` in lower case, where it is an ASCII letter.
pub fn lower_char(c: char) -> (r: char)
    ensures
        r == ascii_lower(c),
{
    let n: u32 = c as u32;
    if 65 <= n && n <= 90 {
        (n as u8 + 32) as char
    } else {
        c
    }
}

// ---------------------------------------------------------------------
// White space and trimming.
// ---------------------------------------------------------------------
/// The characters with the Unicode property `White_Space`.
pub open spec fn is_white_space(c: char) -> bool {
    let n = c as u32;
    ||| 0x9 <= n <= 0xd
    ||| n == 0x20
    ||| n == 0x85
    ||| n == 0xa0
    ||| n == 0x1680
    ||| 0x2000 <= n <= 0x200a
    ||| n == 0x2028
    ||| n == 0x2029
    ||| n == 0x202f
    ||| n == 0x205f
    ||| n == 0x3000
}

/// Whether `c` has the Unicode property `White_Space`.
pub fn white_space(c: char) -> (r: bool)
    ensures
        r == is_white_space(c),
{
    let n: u32 = c as u32;
    (0x9 <= n && n <= 0xd) || n == 0x20 || n == 0x85 || n == 0xa0 || n == 0x1680 || (0x2000 <= n
        && n <= 0x200a) || n == 0x2028 || n == 0x2029 || n == 0x202f || n == 0x205f || n == 0x3000
}

/// `s` without its leading white space.
pub open spec fn trim_start(s: Seq<char>) -> Seq<char>
    decreases s.len(),
{
    if s.len() > 0 && is_white_space(s[0]) {
        trim_start(s.skip(1))
    } else {
        s
    }
}

/// `s` without its trailing white space.
pub open spec fn trim_end(s: Seq<char>) -> Seq<char>
    decreases s.len(),
{
    if s.len() > 0 && is_white_space(s.last()) {
        trim_end(s.drop_last())
    } else {
        s
    }
}

/// `s` without its leading and trailing white space.
pub open spec fn trim(s: Seq<char>) -> Seq<char> {
    trim_end(trim_start(s))
}

/// The range of `cs` that is left once leading and trailing white space is
/// taken off.
pub fn trim_range(cs: &[char]) -> (r: (usize, usize))
    ensures
        r.0 <= r.1 <= cs@.len(),
        cs@.subrange(r.0 as int, r.1 as int) == trim(cs@),
{
    let mut lo: usize = 0;
    assert(cs@.skip(0) == cs@);
    while lo < cs.len() && white_space(cs[lo])
        invariant
            lo <= cs@.len(),
            trim_start(cs@.skip(lo as int)) == trim_start(cs@),
        decreases cs@.len() - lo,
    {
        assert(cs@.skip(lo as int).skip(1) == cs@.skip(lo + 1));
        lo += 1;
    }
    let mut hi: usize = cs.len();
    assert(cs@.subrange(lo as int, hi as int) == cs@.skip(lo as int));
    while hi > lo && white_space(cs[hi - 1])
        invariant
            lo <= hi <= cs@.len(),
            trim_end(cs@.subrange(lo as int, hi as int)) == trim(cs@),
        decreases hi - lo,
    {
        assert(cs@.subrange(lo as int, hi as int).drop_last() == cs@.subrange(
            lo as int,
            hi - 1,
        ));
        hi -= 1;
    }
    (lo, hi)
}

/// Trimming leaves no white space at either end.
pub proof fn lemma_trim_ends(s: Seq<char>)
    ensures
        trim(s).len() <= s.len(),
        trim(s).len() > 0 ==> !is_white_space(trim(s)[0]) && !is_white_space(trim(s).last()),
{
    lemma_trim_start_first(s);
    lemma_trim_end_last(trim_start(s));
}

/// What `trim_start` leaves is empty or starts with something else.
proof fn lemma_trim_start_first(s: Seq<char>)
    ensures
        trim_start(s).len() <= s.len(),
        trim_start(s).len() > 0 ==> !is_white_space(trim_start(s)[0]),
        forall|i: int|
            #![trigger trim_start(s)[i]]
            0 <= i < trim_start(s).len() ==> s.contains(trim_start(s)[i]),
    decreases s.len(),
{
    if s.len() > 0 && is_white_space(s[0]) {
        lemma_trim_start_first(s.skip(1));
        assert forall|i: int| 0 <= i < trim_start(s).len() implies s.contains(
            #[trigger] trim_start(s)[i],
        ) by {
            let c = trim_start(s.skip(1))[i];
            let j = choose|j: int| 0 <= j < s.skip(1).len() && s.skip(1)[j] == c;
            assert(s[j + 1] == c);
        }
    }
}

/// What `trim_end` leaves is a prefix that does not end in white space.
proof fn lemma_trim_end_last(s: Seq<char>)
    ensures
        trim_end(s).len() <= s.len(),
        trim_end(s) == s.take(trim_end(s).len() as int),
        trim_end(s).len() > 0 ==> !is_white_space(trim_end(s).last()),
    decreases s.len(),
{
    if s.len() > 0 && is_white_space(s.last()) {
        lemma_trim_end_last(s.drop_last());
        assert(s.drop_last().take(trim_end(s).len() as int) == s.take(trim_end(s).len() as int));
    } else {
        assert(s.take(s.len() as int) == s);
    }
}

/// Every character that is left by trimming was there before.
pub proof fn lemma_trim_contains(s: Seq<char>, c: char)
    requires
        trim(s).contains(c),
    ensures
        s.contains(c),
{
    lemma_trim_start_first(s);
    lemma_trim_end_last(trim_start(s));
    let i = choose|i: int| 0 <= i < trim(s).len() && trim(s)[i] == c;
    assert(trim_start(s)[i] == c);
}

// ---------------------------------------------------------------------
// Searching.
// ---------------------------------------------------------------------
/// Whether `pat` occurs in `s` at index `i`.
pub open spec fn occurs_at(s: Seq<char>, pat: Seq<char>, i: int) -> bool {
    0 <= i && i + pat.len() <= s.len() && s.subrange(i, i + pat.len()) == pat
}

/// The first index from `i` on at which `pat` occurs in `s`.
pub open spec fn find_from(s: Seq<char>, pat: Seq<char>, i: int) -> Option<int>
    decreases s.len() + 1 - i,
{
    if i + pat.len() > s.len() {
        None
    } else if occurs_at(s, pat, i) {
        Some(i)
    } else {
        find_from(s, pat, i + 1)
    }
}

/// Whether `pat` occurs anywhere in `s`.
pub open spec fn contains_text(s: Seq<char>, pat: Seq<char>) -> bool {
    exists|i: int| occurs_at(s, pat, i)
}

/// Whether `pat` occurs in `cs` at index `i`.
fn matches_at(cs: &[char], pat: &[char], i: usize) -> (r: bool)
    requires
        i + pat@.len() <= cs@.len(),
    ensures
        r == occurs_at(cs@, pat@, i as int),
{
    let mut k: usize = 0;
    while k < pat.len()
        invariant
            k <= pat@.len(),
            i + pat@.len() <= cs.len(),
            forall|j: int| 0 <= j < k ==> cs@[i + j] == #[trigger] pat@[j],
        decreases pat@.len() - k,
    {
        if cs[i + k] != pat[k] {
            assert(cs@.subrange(i as int, i + pat@.len())[k as int] != pat@[k as int]);
            return false;
        }
        k += 1;
    }
    assert(cs@.subrange(i as int, i + pat@.len()) =~= pat@);
    true
}

/// The first index at which `pat` occurs in `cs`.
pub fn find(cs: &[char], pat: &[char]) -> (r: Option<usize>)
    ensures
        r is Some == find_from(cs@, pat@, 0) is Some,
        r matches Some(i) ==> find_from(cs@, pat@, 0) == Some(i as int),
        r is Some == contains_text(cs@, pat@),
{
    if pat.len() > cs.len() {
        assert(!contains_text(cs@, pat@));
        return None;
    }
    let mut i: usize = 0;
    let last: usize = cs.len() - pat.len();
    while i <= last
        invariant
            i <= last + 1,
            last == cs@.len() - pat@.len(),
            find_from(cs@, pat@, 0) == find_from(cs@, pat@, i as int),
            forall|j: int| 0 <= j < i ==> !#[trigger] occurs_at(cs@, pat@, j),
        decreases last + 1 - i,
    {
        if matches_at(cs, pat, i) {
            return Some(i);
        }
        if i == last {
            assert(find_from(cs@, pat@, i + 1) is None);
            assert forall|j: int| !#[trigger] occurs_at(cs@, pat@, j) by {}
            return None;
        }
        i += 1;
    }
    None
}

/// Where `find_from` finds the pattern, it occurs, and nowhere before.
pub proof fn lemma_find_from(s: Seq<char>, pat: Seq<char>, i: int)
    requires
        0 <= i,
    ensures
        find_from(s, pat, i) matches Some(k) ==> i <= k && occurs_at(s, pat, k) && forall|j: int|
            i <= j < k ==> !#[trigger] occurs_at(s, pat, j),
        find_from(s, pat, i) is None ==> forall|j: int|
            i <= j ==> !#[trigger] occurs_at(s, pat, j),
    decreases s.len() + 1 - i,
{
    if i + pat.len() > s.len() {
    } else if !occurs_at(s, pat, i) {
        lemma_find_from(s, pat, i + 1);
    }
}

/// The first index from `i` on at which `s` holds `c`.
pub open spec fn index_from(s: Seq<char>, c: char, i: int) -> Option<int>
    decreases s.len() - i,
{
    if i >= s.len() {
        None
    } else if s[i] == c {
        Some(i)
    } else {
        index_from(s, c, i + 1)
    }
}

/// Where `index_from` finds the character, it stands, and nowhere before.
pub proof fn lemma_index_from(s: Seq<char>, c: char, i: int)
    requires
        0 <= i,
    ensures
        index_from(s, c, i) matches Some(k) ==> i <= k < s.len() && s[k] == c && forall|j: int|
            i <= j < k ==> #[trigger] s[j] != c,
        index_from(s, c, i) is None ==> forall|j: int| i <= j < s.len() ==> #[trigger] s[j] != c,
    decreases s.len() - i,
{
    if i < s.len() && s[i] != c {
        lemma_index_from(s, c, i + 1);
    }
}

/// The first index from `from` on at which `cs` holds `c`.
pub fn find_char(cs: &[char], c: char, from: usize) -> (r: Option<usize>)
    requires
        from <= cs@.len(),
    ensures
        r is Some == index_from(cs@, c, from as int) is Some,
        r matches Some(i) ==> index_from(cs@, c, from as int) == Some(i as int),
        r matches Some(i) ==> from <= i < cs@.len(),
{
    let mut i: usize = from;
    while i < cs.len()
        invariant
            from <= i <= cs@.len(),
            index_from(cs@, c, from as int) == index_from(cs@, c, i as int),
        decreases cs@.len() - i,
    {
        if cs[i] == c {
            return Some(i);
        }
        i += 1;
    }
    None
}

// ---------------------------------------------------------------------
// Lines.
// ---------------------------------------------------------------------
/// A line that ended in `\n`, without the `\r` of a `\r\n`.
pub open spec fn without_cr(line: Seq<char>) -> Seq<char> {
    if line.len() > 0 && line.last() == '\r' {
        line.drop_last()
    } else {
        line
    }
}

/// The lines of `s`. A line ends at `\n` or `\r\n`, which is not part of it;
/// the last line needs no end.
pub open spec fn lines(s: Seq<char>) -> Seq<Seq<char>>
    decreases s.len(),
{
    proof {
        lemma_index_from(s, '\n', 0);
    }
    if s.len() == 0 {
        seq![]
    } else {
        match index_from(s, '\n', 0) {
            None => seq![s],
            Some(k) => seq![without_cr(s.take(k))] + lines(s.skip(k + 1)),
        }
    }
}

/// The range of each line of `cs`.
pub fn line_ranges(cs: &[char]) -> (r: Vec<(usize, usize)>)
    ensures
        r@.len() == lines(cs@).len(),
        forall|i: int|
            0 <= i < r@.len() ==> (#[trigger] r@[i]).0 <= r@[i].1 <= cs@.len() && cs@.subrange(
                r@[i].0 as int,
                r@[i].1 as int,
            ) == lines(cs@)[i],
{
    let mut out: Vec<(usize, usize)> = Vec::new();
    let mut i: usize = 0;
    assert(cs@.skip(0) == cs@);
    while i < cs.len()
        invariant
            i <= cs@.len(),
            lines(cs@).len() == out@.len() + lines(cs@.skip(i as int)).len(),
            forall|k: int|
                0 <= k < out@.len() ==> (#[trigger] out@[k]).0 <= out@[k].1 <= cs@.len()
                    && cs@.subrange(out@[k].0 as int, out@[k].1 as int) == lines(cs@)[k],
            forall|k: int|
                out@.len() <= k < lines(cs@).len() ==> #[trigger] lines(cs@)[k] == lines(
                    cs@.skip(i as int),
                )[k - out@.len()],
        decreases cs@.len() - i,
    {
        let ghost rest = cs@.skip(i as int);
        proof {
            lemma_index_from_skip(cs@, '\n', i as int, i as int);
        }
        match find_char(cs, '\n', i) {
            None => {
                assert(cs@.subrange(i as int, cs@.len() as int) == rest);
                out.push((i, cs.len()));
                i = cs.len();
                assert(lines(cs@.skip(i as int)).len() == 0);
            },
            Some(k) => {
                let ghost line = rest.take(k - i);
                assert(cs@.subrange(i as int, k as int) == line);
                let mut end: usize = k;
                if k > i && cs[k - 1] == '\r' {
                    end = k - 1;
                }
                assert(cs@.subrange(i as int, end as int) == without_cr(line));
                assert(rest.skip(k - i + 1) == cs@.skip(k + 1));
                assert(lines(rest)[0] == without_cr(line));
                assert(lines(cs@)[out@.len() as int] == lines(rest)[0]);
                out.push((i, end));
                i = k + 1;
            },
        }
    }
    assert(lines(cs@.skip(i as int)).len() == 0);
    out
}

/// Searching a tail is searching the whole from there on.
pub proof fn lemma_index_from_skip(s: Seq<char>, c: char, from: int, i: int)
    requires
        0 <= from <= i,
        from <= s.len(),
    ensures
        index_from(s, c, i) is Some == index_from(s.skip(from), c, i - from) is Some,
        index_from(s, c, i) matches Some(k) ==> index_from(s.skip(from), c, i - from) == Some(
            k - from,
        ),
    decreases s.len() - i,
{
    if i < s.len() {
        assert(s.skip(from)[i - from] == s[i]);
        lemma_index_from_skip(s, c, from, i + 1);
    }
}

// ---------------------------------------------------------------------
// Numbers.
// ---------------------------------------------------------------------
/// The digit `d` (below ten) as a character.
pub open spec fn digit_char(d: nat) -> char {
    (48 + d) as char
}

/// `n` in decimal, without leading zeros.
pub open spec fn decimal(n: nat) -> Seq<char>
    decreases n,
{
    if n < 10 {
        seq![digit_char(n)]
    } else {
        decimal(n / 10).push(digit_char(n % 10))
    }
}

/// Appends `n` in decimal.
pub fn push_decimal(out: &mut String, n: u128)
    ensures
        final(out)@ == old(out)@ + decimal(n as nat),
    decreases n,
{
    if n >= 10 {
        push_decimal(out, n / 10);
    }
    let d: u8 = 48 + (n % 10) as u8;
    out.push(d as char);
    assert(out@ =~= old(out)@ + decimal(n as nat));
}

/// `n` in decimal, with a minus sign where it is negative.
pub open spec fn int_text(n: int) -> Seq<char> {
    if n < 0 {
        seq!['-'] + decimal((-n) as nat)
    } else {
        decimal(n as nat)
    }
}

/// Appends `n` in decimal.
pub fn push_int(out: &mut String, n: i64)
    ensures
        final(out)@ == old(out)@ + int_text(n as int),
{
    if n < 0 {
        out.push('-');
        push_decimal(out, (-(n as i128)) as u128);
        assert(out@ =~= old(out)@ + int_text(n as int));
    } else {
        push_decimal(out, n as u128);
    }
}

/// The value of a string of digits, most significant first.
pub open spec fn number(ds: Seq<u8>, radix: nat) -> nat
    decreases ds.len(),
{
    if ds.len() == 0 {
        0
    } else {
        number(ds.drop_last(), radix) * radix + ds.last() as nat
    }
}

/// The value of a string of digits, exact up to `u64::MAX`; anything larger
/// comes out as some value above `u64::MAX`.
pub fn read_number(ds: &[u8], radix: u8) -> (r: u128)
    requires
        1 <= radix,
    ensures
        number(ds@, radix as nat) <= u64::MAX ==> r == number(ds@, radix as nat),
        number(ds@, radix as nat) > u64::MAX ==> r > u64::MAX,
{
    let mut acc: u128 = 0;
    let mut i: usize = 0;
    while i < ds.len()
        invariant
            i <= ds@.len(),
            1 <= radix,
            acc <= 0x1_0000_0000_0000_0000,
            number(ds@.take(i as int), radix as nat) <= u64::MAX ==> acc == number(
                ds@.take(i as int),
                radix as nat,
            ),
            number(ds@.take(i as int), radix as nat) > u64::MAX ==> acc > u64::MAX,
        decreases ds@.len() - i,
    {
        let ghost before = number(ds@.take(i as int), radix as nat);
        assert(ds@.take(i + 1).drop_last() == ds@.take(i as int));
        assert(before * (radix as nat) >= before) by (nonlinear_arith)
            requires
                radix >= 1,
        ;
        assert(acc * radix <= 0x1_0000_0000_0000_0000 * 255) by (nonlinear_arith)
            requires
                acc <= 0x1_0000_0000_0000_0000,
                radix <= 255,
        ;
        assert(acc * radix >= acc) by (nonlinear_arith)
            requires
                radix >= 1,
        ;
        let next: u128 = acc * (radix as u128) + ds[i] as u128;
        if next > 0xffff_ffff_ffff_ffff {
            acc = 0x1_0000_0000_0000_0000;
        } else {
            acc = next;
        }
        i += 1;
    }
    assert(ds@.take(ds@.len() as int) == ds@);
    acc
}

/// The value of `c` as a digit in `radix`, letters counting from ten on in
/// either case.
pub open spec fn digit_of(c: char, radix: nat) -> Option<u8> {
    let n = c as u32;
    let v: int = if 48 <= n <= 57 {
        n - 48
    } else if 97 <= n <= 122 {
        n - 87
    } else if 65 <= n <= 90 {
        n - 55
    } else {
        255
    };
    if v < radix && v < 36 {
        Some(v as u8)
    } else {
        None
    }
}

/// The value of `c` as a digit in `radix`.
pub fn read_digit(c: char, radix: u8) -> (r: Option<u8>)
    ensures
        r == digit_of(c, radix as nat),
{
    let n: u32 = c as u32;
    let v: u8 = if 48 <= n && n <= 57 {
        (n - 48) as u8
    } else if 97 <= n && n <= 122 {
        (n - 87) as u8
    } else if 65 <= n && n <= 90 {
        (n - 55) as u8
    } else {
        255
    };
    if v < radix && v < 36 {
        Some(v)
    } else {
        None
    }
}

/// The number that `s` spells in `radix`, an optional `+` first, if it spells
/// one that fits in 32 bits.
pub open spec fn parsed_u32(s: Seq<char>, radix: nat) -> Option<u32> {
    let ds = if s.len() > 0 && s[0] == '+' {
        s.skip(1)
    } else {
        s
    };
    let digits = leading_digits(ds, radix);
    if ds.len() > 0 && digits.len() == ds.len() && number(digits, radix) <= u32::MAX {
        Some(number(digits, radix) as u32)
    } else {
        None
    }
}

/// The number that `cs` spells in `radix`, an optional `+` first.
pub fn parse_u32(cs: &[char], radix: u8) -> (r: Option<u32>)
    requires
        1 <= radix,
    ensures
        r == parsed_u32(cs@, radix as nat),
{
    let mut from: usize = 0;
    if cs.len() > 0 && cs[0] == '+' {
        from = 1;
    }
    assert(cs@.skip(0) == cs@);
    let digits = read_leading_digits(cs, from, radix);
    if cs.len() == from || digits.len() != cs.len() - from {
        return None;
    }
    let n: u128 = read_number(digits.as_slice(), radix);
    if n <= 0xffff_ffff {
        Some(n as u32)
    } else {
        None
    }
}

/// The digits that `s` starts with.
pub open spec fn leading_digits(s: Seq<char>, radix: nat) -> Seq<u8>
    decreases s.len(),
{
    if s.len() > 0 && digit_of(s[0], radix) is Some {
        seq![digit_of(s[0], radix)->0] + leading_digits(s.skip(1), radix)
    } else {
        seq![]
    }
}

/// The digits that `cs` holds from index `from` on, up to the first character
/// that is none.
pub fn read_leading_digits(cs: &[char], from: usize, radix: u8) -> (r: Vec<u8>)
    requires
        from <= cs@.len(),
    ensures
        r@ == leading_digits(cs@.skip(from as int), radix as nat),
{
    let mut out: Vec<u8> = Vec::new();
    let mut i: usize = from;
    while i < cs.len()
        invariant
            from <= i <= cs@.len(),
            leading_digits(cs@.skip(from as int), radix as nat) == out@ + leading_digits(
                cs@.skip(i as int),
                radix as nat,
            ),
        decreases cs@.len() - i,
    {
        assert(cs@.skip(i as int).skip(1) == cs@.skip(i + 1));
        match read_digit(cs[i], radix) {
            Some(d) => {
                out.push(d);
            },
            None => {
                assert(out@ =~= leading_digits(cs@.skip(from as int), radix as nat));
                return out;
            },
        }
        i += 1;
    }
    assert(out@ =~= leading_digits(cs@.skip(from as int), radix as nat));
    out
}

// ---------------------------------------------------------------------
// UTF-8.
// ---------------------------------------------------------------------
/// Texts are encoded one after the other.
pub proof fn lemma_encode_concat(a: Seq<char>, b: Seq<char>)
    ensures
        encode_utf8(a + b) == encode_utf8(a) + encode_utf8(b),
    decreases a.len(),
{
    if a.len() == 0 {
        assert(a + b =~= b);
        assert(encode_utf8(a) + encode_utf8(b) =~= encode_utf8(b));
    } else {
        lemma_encode_concat(a.drop_first(), b);
        assert((a + b).drop_first() =~= a.drop_first() + b);
        assert(encode_utf8(a + b) =~= encode_utf8(a) + encode_utf8(b));
    }
}

// ---------------------------------------------------------------------
// Laws.
// ---------------------------------------------------------------------
/// White space: tabs, line breaks, and the blanks of all widths.
pub proof fn law_white_space(c: char)
    ensures
        is_white_space(c) == ({
            ||| c == ' ' || c == '\t' || c == '\n' || c == '\r'
            ||| c == '\u{b}' || c == '\u{c}' || c == '\u{85}' || c == '\u{a0}'
            ||| c == '\u{1680}' || '\u{2000}' <= c <= '\u{200a}'
            ||| c == '\u{2028}' || c == '\u{2029}' || c == '\u{202f}'
            ||| c == '\u{205f}' || c == '\u{3000}'
        }),
{
}

/// Trimming takes off the white space around a text, all of it and nothing
/// else.
pub proof fn law_trim(lead: Seq<char>, mid: Seq<char>, trail: Seq<char>)
    requires
        forall|i: int| 0 <= i < lead.len() ==> is_white_space(#[trigger] lead[i]),
        forall|i: int| 0 <= i < trail.len() ==> is_white_space(#[trigger] trail[i]),
        mid.len() > 0 ==> !is_white_space(mid[0]) && !is_white_space(mid.last()),
    ensures
        trim(lead + mid + trail) == mid,
{
    lemma_trim_start_skips(lead, mid + trail);
    assert(lead + mid + trail =~= lead + (mid + trail));
    if mid.len() > 0 {
        assert((mid + trail)[0] == mid[0]);
        lemma_trim_end_skips(mid, trail);
        assert(trim_end(mid) == mid);
    } else {
        assert(mid + trail =~= trail + mid);
        lemma_trim_start_skips(trail, mid);
        assert(trim(lead + mid + trail) =~= mid);
    }
}

proof fn lemma_trim_start_skips(lead: Seq<char>, s: Seq<char>)
    requires
        forall|i: int| 0 <= i < lead.len() ==> is_white_space(#[trigger] lead[i]),
    ensures
        trim_start(lead + s) == trim_start(s),
    decreases lead.len(),
{
    if lead.len() > 0 {
        assert(is_white_space(lead[0]));
        assert((lead + s)[0] == lead[0]);
        assert((lead + s).skip(1) =~= lead.skip(1) + s);
        assert forall|i: int| 0 <= i < lead.skip(1).len() implies is_white_space(
            #[trigger] lead.skip(1)[i],
        ) by {
            assert(is_white_space(lead[i + 1]));
        }
        lemma_trim_start_skips(lead.skip(1), s);
    } else {
        assert(lead + s =~= s);
    }
}

proof fn lemma_trim_end_skips(s: Seq<char>, trail: Seq<char>)
    requires
        forall|i: int| 0 <= i < trail.len() ==> is_white_space(#[trigger] trail[i]),
    ensures
        trim_end(s + trail) == trim_end(s),
    decreases trail.len(),
{
    if trail.len() > 0 {
        assert(is_white_space(trail[trail.len() - 1]));
        assert((s + trail).last() == trail.last());
        assert((s + trail).drop_last() =~= s + trail.drop_last());
        assert forall|i: int| 0 <= i < trail.drop_last().len() implies is_white_space(
            #[trigger] trail.drop_last()[i],
        ) by {
            assert(is_white_space(trail[i]));
        }
        lemma_trim_end_skips(s, trail.drop_last());
    } else {
        assert(s + trail =~= s);
    }
}

/// A text holds another where it is made up of that and what stands around it.
pub proof fn law_contains_text(s: Seq<char>, pat: Seq<char>, a: Seq<char>, b: Seq<char>)
    ensures
        contains_text(a + pat + b, pat),
        contains_text(s, pat) ==> exists|x: Seq<char>, y: Seq<char>| #[trigger] (x + pat + y) == s,
{
    let whole = a + pat + b;
    assert(whole.subrange(a.len() as int, a.len() as int + pat.len()) =~= pat);
    assert(occurs_at(whole, pat, a.len() as int));
    if contains_text(s, pat) {
        let i = choose|i: int| occurs_at(s, pat, i);
        let x = s.take(i);
        let y = s.skip(i + pat.len());
        assert(x + s.subrange(i, i + pat.len()) + y =~= s);
        assert(x + pat + y == s);
    }
}

/// The first index of a character is the length of what has it not in front of
/// it.
pub proof fn lemma_index_is(a: Seq<char>, c: char, b: Seq<char>)
    requires
        !a.contains(c),
    ensures
        index_from(a + seq![c] + b, c, 0) == Some(a.len() as int),
        index_from(a, c, 0) is None,
{
    let s = a + seq![c] + b;
    lemma_index_from(s, c, 0);
    lemma_index_from(a, c, 0);
    assert(s[a.len() as int] == c);
    if index_from(s, c, 0) is Some {
        let k = index_from(s, c, 0)->0;
        if k < a.len() {
            assert(s[k] == a[k]);
            assert(a.contains(c));
        } else if k > a.len() {
            assert(s[a.len() as int] != c);
        }
    }
    if index_from(a, c, 0) is Some {
        assert(a.contains(c));
    }
}

/// A line ends at `\n` or at `\r\n`, and what follows are the lines of the
/// rest; no text has no line, and one without `\n` is a line as it stands.
pub proof fn law_lines(a: Seq<char>, rest: Seq<char>)
    requires
        !a.contains('\n'),
    ensures
        lines(seq![]) == Seq::<Seq<char>>::empty(),
        a.len() > 0 ==> lines(a) == seq![a],
        a.len() == 0 || a.last() != '\r' ==> lines(a + seq!['\n'] + rest) == seq![a] + lines(rest),
        lines(a + seq!['\r', '\n'] + rest) == seq![a] + lines(rest),
{
    lemma_index_is(a, '\n', rest);
    let s = a + seq!['\n'] + rest;
    assert(s.take(a.len() as int) =~= a);
    assert(s.skip(a.len() as int + 1) =~= rest);
    let b = a.push('\r');
    assert(!b.contains('\n')) by {
        if b.contains('\n') {
            let i = choose|i: int| 0 <= i < b.len() && b[i] == '\n';
            assert(a[i] == '\n');
        }
    }
    lemma_index_is(b, '\n', rest);
    let t = b + seq!['\n'] + rest;
    assert(a + seq!['\r', '\n'] + rest =~= t);
    assert(t.take(b.len() as int) =~= b);
    assert(t.skip(b.len() as int + 1) =~= rest);
    assert(b.drop_last() =~= a);
    assert(lines(seq![]) =~= Seq::<Seq<char>>::empty());
}

/// Decimal numbers: a digit is itself, and ten times a number and a digit is
/// the number with the digit behind it. Negative numbers have a minus sign.
pub proof fn law_decimal(n: nat, d: nat)
    requires
        d < 10,
    ensures
        decimal(d) == seq!["0123456789"@[d as int]],
        n > 0 ==> decimal(10 * n + d) == decimal(n).push("0123456789"@[d as int]),
        int_text(n as int) == decimal(n),
        n > 0 ==> int_text(-(n as int)) == seq!['-'] + decimal(n),
{
    reveal_strlit("0123456789");
    assert((10 * n + d) / 10 == n && (10 * n + d) % 10 == d);
    assert(digit_char(d) == "0123456789"@[d as int]);
}

/// The value of digits: none are zero, and each one more is added to the radix
/// times what stands in front of it.
pub proof fn law_number(ds: Seq<u8>, d: u8, radix: nat)
    ensures
        number(seq![], radix) == 0,
        number(ds.push(d), radix) == number(ds, radix) * radix + d,
{
    assert(ds.push(d).drop_last() =~= ds);
}

/// The digits are `0` to `9`, and for hexadecimal numbers `a` to `f` in either
/// case.
pub proof fn law_digits(c: char, d: int)
    ensures
        0 <= d < 10 ==> digit_of("0123456789"@[d], 10) == Some(d as u8),
        0 <= d < 16 ==> digit_of("0123456789abcdef"@[d], 16) == Some(d as u8) && digit_of(
            "0123456789ABCDEF"@[d],
            16,
        ) == Some(d as u8),
        digit_of(c, 10) is Some == ('0' <= c <= '9'),
        digit_of(c, 16) is Some == ('0' <= c <= '9' || 'a' <= c <= 'f' || 'A' <= c <= 'F'),
{
    reveal_strlit("0123456789");
    reveal_strlit("0123456789abcdef");
    reveal_strlit("0123456789ABCDEF");
}

/// Whether all of `s` are digits in `radix`.
pub open spec fn all_digits(s: Seq<char>, radix: nat) -> bool {
    forall|i: int| 0 <= i < s.len() ==> digit_of(#[trigger] s[i], radix) is Some
}

/// The values of digits.
pub open spec fn digit_values(s: Seq<char>, radix: nat) -> Seq<u8> {
    s.map_values(|c: char| digit_of(c, radix)->0)
}

/// The digits in front of a text are all of those up to the first character
/// that is none.
pub proof fn law_leading_digits(a: Seq<char>, b: Seq<char>, radix: nat)
    requires
        all_digits(a, radix),
        b.len() > 0 ==> digit_of(b[0], radix) is None,
    ensures
        leading_digits(a + b, radix) == digit_values(a, radix),
    decreases a.len(),
{
    if a.len() > 0 {
        assert(digit_of(a[0], radix) is Some);
        assert((a + b)[0] == a[0]);
        assert((a + b).skip(1) =~= a.skip(1) + b);
        assert forall|i: int| 0 <= i < a.skip(1).len() implies digit_of(
            #[trigger] a.skip(1)[i],
            radix,
        ) is Some by {
            assert(digit_of(a[i + 1], radix) is Some);
        }
        law_leading_digits(a.skip(1), b, radix);
        assert(leading_digits(a + b, radix) =~= digit_values(a, radix));
    } else {
        assert(a + b =~= b);
        assert(leading_digits(a + b, radix) =~= digit_values(a, radix));
    }
}

/// The digits of a decimal number are digits, and their value is the number.
pub proof fn lemma_decimal_value(n: nat)
    ensures
        decimal(n).len() > 0,
        all_digits(decimal(n), 10),
        number(digit_values(decimal(n), 10), 10) == n,
    decreases n,
{
    let s = decimal(n);
    let d = digit_char(n % 10);
    assert(digit_of(d, 10) == Some((n % 10) as u8));
    if n >= 10 {
        lemma_decimal_value(n / 10);
        let t = decimal(n / 10);
        assert forall|i: int| 0 <= i < s.len() implies digit_of(#[trigger] s[i], 10) is Some by {
            if i < t.len() {
                assert(digit_of(t[i], 10) is Some);
            }
        }
        assert(digit_values(s, 10) =~= digit_values(t, 10).push((n % 10) as u8));
        law_number(digit_values(t, 10), (n % 10) as u8, 10);
    } else {
        assert(digit_values(s, 10) =~= Seq::<u8>::empty().push(n as u8));
        law_number(seq![], n as u8, 10);
    }
}

/// A number that is written in decimal reads back as itself where it fits in 32
/// bits, with a plus sign in front of it or without, and as none where it does
/// not.
pub proof fn law_decimal_reads_back(n: nat)
    ensures
        parsed_u32(decimal(n), 10) == if n <= 0xffff_ffff {
            Some(n as u32)
        } else {
            None
        },
        parsed_u32(seq!['+'] + decimal(n), 10) == parsed_u32(decimal(n), 10),
{
    let s = decimal(n);
    lemma_decimal_value(n);
    assert(digit_of(s[0], 10) is Some);
    law_leading_digits(s, seq![], 10);
    assert(s + seq![] =~= s);
    assert((seq!['+'] + s).skip(1) =~= s);
}

/// What holds anything but digits, a plus sign in front aside, is no number,
/// and nothing is none either.
pub proof fn law_no_number(s: Seq<char>, radix: nat, i: int)
    requires
        0 <= i < s.len(),
        i > 0 || s[0] != '+',
        digit_of(s[i], radix) is None,
    ensures
        parsed_u32(s, radix) is None,
        parsed_u32(seq![], radix) is None,
        parsed_u32(seq!['+'], radix) is None,
{
    let ds = if s[0] == '+' {
        s.skip(1)
    } else {
        s
    };
    let k = if s[0] == '+' {
        i - 1
    } else {
        i
    };
    assert(ds[k] == s[i]);
    lemma_leading_digits_stop(ds, radix, k);
    assert(seq!['+'].skip(1) =~= seq![]);
}

proof fn lemma_leading_digits_stop(s: Seq<char>, radix: nat, k: int)
    requires
        0 <= k < s.len(),
        digit_of(s[k], radix) is None,
    ensures
        leading_digits(s, radix).len() <= k,
    decreases s.len(),
{
    if digit_of(s[0], radix) is Some {
        assert(s.skip(1)[k - 1] == s[k]);
        lemma_leading_digits_stop(s.skip(1), radix, k - 1);
    }
}

/// Only the capitals `A` to `Z` have another lower case, 32 places on.
pub proof fn law_lower(c: char, i: int)
    ensures
        0 <= i < 26 ==> ascii_lower("ABCDEFGHIJKLMNOPQRSTUVWXYZ"@[i])
            == "abcdefghijklmnopqrstuvwxyz"@[i],
        !('A' <= c <= 'Z') ==> ascii_lower(c) == c,
{
    reveal_strlit("ABCDEFGHIJKLMNOPQRSTUVWXYZ");
    reveal_strlit("abcdefghijklmnopqrstuvwxyz");
}

/// Every code point but the surrogates is a character.
pub proof fn law_scalar_char(n: nat)
    ensures
        scalar_char(n) is Some == (n < 0xd800 || 0xe000 <= n <= 0x10_ffff),
        scalar_char(n) matches Some(c) ==> c as u32 == n,
{
}

/// A search finds the first place at which the text occurs, and nothing where it
/// does not.
pub proof fn law_find(s: Seq<char>, pat: Seq<char>, k: int)
    ensures
        find_from(s, pat, 0) == Some(k) <==> 0 <= k && k + pat.len() <= s.len() && s.subrange(
            k,
            k + pat.len(),
        ) == pat && forall|j: int| 0 <= j < k ==> !#[trigger] occurs_at(s, pat, j),
        find_from(s, pat, 0) is None <==> !contains_text(s, pat),
{
    lemma_find_from(s, pat, 0);
    if 0 <= k && k + pat.len() <= s.len() && s.subrange(k, k + pat.len()) == pat && (forall|j: int|
        0 <= j < k ==> !#[trigger] occurs_at(s, pat, j)) {
        assert(occurs_at(s, pat, k));
        let f = find_from(s, pat, 0)->0;
        if f < k {
            assert(occurs_at(s, pat, f));
        }
    }
}

/// A character is found at its first place from the given one on.
pub proof fn law_find_char(s: Seq<char>, c: char, from: int, k: int)
    requires
        0 <= from,
    ensures
        index_from(s, c, from) == Some(k) <==> from <= k < s.len() && s[k] == c && forall|j: int|
            from <= j < k ==> #[trigger] s[j] != c,
        index_from(s, c, from) is None <==> forall|j: int|
            from <= j < s.len() ==> #[trigger] s[j] != c,
{
    lemma_index_from(s, c, from);
    if from <= k < s.len() && s[k] == c && (forall|j: int| from <= j < k ==> #[trigger] s[j] != c) {
        let f = index_from(s, c, from)->0;
        if f < k {
            assert(s[f] != c);
        }
    }
}

} // verus!
