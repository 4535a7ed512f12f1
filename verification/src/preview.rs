//! The one-line texts that a row shows: previews, language hints, ages.

use vstd::prelude::*;

use crate::text::{find, from_chars, line_ranges, lower_char, push_decimal, to_chars, trim_range};
use crate::text::{ascii_lower, contains_text, decimal, is_white_space, lines, trim};
use crate::text::{law_contains_text, law_lines, law_trim, lemma_trim_contains, lemma_trim_ends};

verus! {

// ---------------------------------------------------------------------
// Previews.
// ---------------------------------------------------------------------
/// Line breaks and tabs read as blanks.
pub open spec fn flat_char(c: char) -> char {
    if c == '\r' || c == '\n' || c == '\t' {
        ' '
    } else {
        c
    }
}

/// `s` on one line.
pub open spec fn flat(s: Seq<char>) -> Seq<char> {
    s.map_values(|c: char| flat_char(c))
}

/// `t`, cut after `max` characters with `...` put behind it where it is longer.
pub open spec fn shorten(t: Seq<char>, max: nat) -> Seq<char> {
    if t.len() <= max {
        t
    } else {
        t.take(max as int) + "..."@
    }
}

/// The preview of a text: on one line, trimmed, at most `max` characters
/// long.
pub open spec fn preview_text(s: Seq<char>, max: nat) -> Seq<char> {
    shorten(trim(flat(s)), max)
}

/// `cs[lo..hi]`, shortened to `max` characters.
fn shortened(cs: &[char], lo: usize, hi: usize, max: usize) -> (r: String)
    requires
        lo <= hi <= cs@.len(),
    ensures
        r@ == shorten(cs@.subrange(lo as int, hi as int), max as nat),
{
    if hi - lo <= max {
        from_chars(&cs[lo..hi])
    } else {
        let mut out = from_chars(&cs[lo..lo + max]);
        out.append("...");
        assert(cs@.subrange(lo as int, lo + max) == cs@.subrange(lo as int, hi as int).take(
            max as int,
        ));
        out
    }
}

/// The preview of a text: on one line, trimmed, at most `max` characters
/// long, with `...` behind it where something was cut off.
pub fn truncate_preview(s: &str, max: usize) -> (r: String)
    ensures
        r@ == preview_text(s@, max as nat),
{
    let mut cs = to_chars(s);
    let mut i: usize = 0;
    while i < cs.len()
        invariant
            i <= cs@.len(),
            cs@.len() == s@.len(),
            forall|k: int| 0 <= k < i ==> #[trigger] cs@[k] == flat_char(s@[k]),
            forall|k: int| i <= k < cs@.len() ==> #[trigger] cs@[k] == s@[k],
        decreases cs@.len() - i,
    {
        let c: char = cs[i];
        if c == '\r' || c == '\n' || c == '\t' {
            cs.set(i, ' ');
        }
        i += 1;
    }
    assert(cs@ =~= flat(s@));
    let (lo, hi) = trim_range(cs.as_slice());
    shortened(cs.as_slice(), lo, hi, max)
}

/// A preview is one line: it holds no line break and no tab.
pub proof fn law_preview_is_one_line(s: Seq<char>, max: nat)
    ensures
        !preview_text(s, max).contains('\r'),
        !preview_text(s, max).contains('\n'),
        !preview_text(s, max).contains('\t'),
{
    reveal_strlit("...");
    let p = preview_text(s, max);
    assert forall|i: int| 0 <= i < p.len() implies p[i] != '\r' && p[i] != '\n' && #[trigger] p[i]
        != '\t' by {
        if i < trim(flat(s)).len() && i < max || trim(flat(s)).len() <= max {
            let c = trim(flat(s))[i];
            assert(trim(flat(s)).contains(c));
            lemma_trim_contains(flat(s), c);
            let j = choose|j: int| 0 <= j < flat(s).len() && flat(s)[j] == c;
            assert(flat(s)[j] == flat_char(s[j]));
        }
    }
}

/// A preview holds at most `max` characters and an ellipsis.
pub proof fn law_preview_is_short(s: Seq<char>, max: nat)
    ensures
        preview_text(s, max).len() <= max + 3,
        trim(flat(s)).len() <= max ==> preview_text(s, max).len() <= max,
{
    reveal_strlit("...");
}

/// A preview is its own preview: nothing more is cut off, and a cut preview is
/// cut in the same place.
pub proof fn law_preview_is_stable(s: Seq<char>, max: nat)
    ensures
        preview_text(preview_text(s, max), max) == preview_text(s, max),
{
    let p = preview_text(s, max);
    law_preview_is_one_line(s, max);
    assert(flat(p) =~= p) by {
        assert forall|i: int| 0 <= i < p.len() implies flat_char(#[trigger] p[i]) == p[i] by {
            assert(p.contains(p[i]));
        }
    }
    let t = trim(flat(s));
    lemma_trim_ends(flat(s));
    if t.len() > max {
        reveal_strlit("...");
        assert(p[0] == if max > 0 {
            t[0]
        } else {
            '.'
        });
        assert(p.last() == '.');
        assert(trim(p) == p);
        assert(p.take(max as int) =~= t.take(max as int));
    }
}

/// The first of `ls` that holds more than white space, trimmed.
pub open spec fn first_nonblank(ls: Seq<Seq<char>>) -> Option<Seq<char>>
    decreases ls.len(),
{
    if ls.len() == 0 {
        None
    } else if trim(ls[0]).len() > 0 {
        Some(trim(ls[0]))
    } else {
        first_nonblank(ls.skip(1))
    }
}

/// The first line of a text that is not blank, shortened.
pub open spec fn first_line_text(s: Seq<char>, max: nat) -> Seq<char> {
    match first_nonblank(lines(s)) {
        Some(t) => shorten(t, max),
        None => seq![],
    }
}

/// The first line of `s` that is not blank, trimmed and shortened to `max`
/// characters; empty where every line is blank.
pub fn first_nonempty_line(s: &str, max: usize) -> (r: String)
    ensures
        r@ == first_line_text(s@, max as nat),
{
    let cs = to_chars(s);
    let ranges = line_ranges(cs.as_slice());
    let mut i: usize = 0;
    assert(lines(s@).skip(0) == lines(s@));
    while i < ranges.len()
        invariant
            i <= ranges@.len(),
            cs@ == s@,
            ranges@.len() == lines(s@).len(),
            forall|k: int|
                0 <= k < ranges@.len() ==> (#[trigger] ranges@[k]).0 <= ranges@[k].1 <= cs@.len()
                    && cs@.subrange(ranges@[k].0 as int, ranges@[k].1 as int) == lines(cs@)[k],
            first_nonblank(lines(s@)) == first_nonblank(lines(s@).skip(i as int)),
        decreases ranges@.len() - i,
    {
        let (a, b) = ranges[i];
        let (lo, hi) = trim_range(&cs[a..b]);
        assert(cs@.subrange(a as int, b as int).subrange(lo as int, hi as int) == cs@.subrange(
            a + lo,
            a + hi,
        ));
        if lo < hi {
            return shortened(cs.as_slice(), a + lo, a + hi, max);
        }
        assert(lines(s@).skip(i as int).skip(1) == lines(s@).skip(i + 1));
        i += 1;
    }
    let r = String::new();
    assert(r@ =~= first_line_text(s@, max as nat));
    r
}

// ---------------------------------------------------------------------
// Code that was copied out of an editor.
// ---------------------------------------------------------------------
/// Whether a window title is that of a known code editor.
pub open spec fn is_ide_title(t: Seq<char>) -> bool {
    ||| contains_text(t, "Visual Studio Code"@)
    ||| contains_text(t, "JetBrains"@)
    ||| contains_text(t, "IntelliJ"@)
    ||| contains_text(t, "PyCharm"@)
    ||| contains_text(t, "Rider"@)
    ||| contains_text(t, "GoLand"@)
    ||| contains_text(t, "WebStorm"@)
    ||| contains_text(t, "Notepad++"@)
    ||| contains_text(t, "Microsoft Visual Studio"@)
}

/// Whether `needle` occurs in `cs`.
fn has(cs: &[char], needle: &str) -> (r: bool)
    ensures
        r == contains_text(cs@, needle@),
{
    let n = to_chars(needle);
    find(cs, n.as_slice()).is_some()
}

/// Whether a window title is that of a known code editor.
pub fn title_is_ide(title: &str) -> (r: bool)
    ensures
        r == is_ide_title(title@),
{
    let cs = to_chars(title);
    let t = cs.as_slice();
    has(t, "Visual Studio Code") || has(t, "JetBrains") || has(t, "IntelliJ") || has(t, "PyCharm")
        || has(t, "Rider") || has(t, "GoLand") || has(t, "WebStorm") || has(t, "Notepad++") || has(
        t,
        "Microsoft Visual Studio",
    )
}

/// ASCII letters and digits.
pub open spec fn is_alphanumeric(c: char) -> bool {
    let n = c as u32;
    48 <= n <= 57 || 65 <= n <= 90 || 97 <= n <= 122
}

/// The characters that belong to the word behind a dot.
pub open spec fn is_word_char(c: char) -> bool {
    is_alphanumeric(c) || c == '_'
}

/// The index behind the run of word characters that starts at `i`.
pub open spec fn word_end(s: Seq<char>, i: int) -> int
    decreases s.len() - i,
{
    if i < s.len() && is_word_char(s[i]) {
        word_end(s, i + 1)
    } else {
        i
    }
}

/// The file extension that a dot at index `i` starts: the word behind it, if
/// that is one to six letters and digits long.
pub open spec fn extension_at(s: Seq<char>, i: int) -> Option<Seq<char>> {
    let word = s.subrange(i + 1, word_end(s, i + 1));
    if s[i] == '.' && 1 <= word.len() <= 6 && forall|k: int|
        0 <= k < word.len() ==> is_alphanumeric(#[trigger] word[k]) {
        Some(word.map_values(|c: char| ascii_lower(c)))
    } else {
        None
    }
}

/// The last file extension that starts in front of index `n`.
pub open spec fn last_extension(s: Seq<char>, n: int) -> Option<Seq<char>>
    decreases n,
{
    if n <= 0 {
        None
    } else if extension_at(s, n - 1) is Some {
        extension_at(s, n - 1)
    } else {
        last_extension(s, n - 1)
    }
}

fn alphanumeric(c: char) -> (r: bool)
    ensures
        r == is_alphanumeric(c),
{
    let n: u32 = c as u32;
    (48 <= n && n <= 57) || (65 <= n && n <= 90) || (97 <= n && n <= 122)
}

/// The file extension that a dot at index `i` starts.
fn read_extension(cs: &[char], i: usize) -> (r: Option<String>)
    requires
        i < cs@.len(),
    ensures
        r is Some == extension_at(cs@, i as int) is Some,
        r matches Some(t) ==> extension_at(cs@, i as int) == Some(t@),
{
    if cs[i] != '.' {
        return None;
    }
    let mut plain = true;
    let mut out = String::new();
    let mut j: usize = i + 1;
    while j < cs.len() && (alphanumeric(cs[j]) || cs[j] == '_')
        invariant
            i < j <= cs.len(),
            word_end(cs@, i + 1) == word_end(cs@, j as int),
            plain == forall|k: int| i < k < j ==> is_alphanumeric(#[trigger] cs@[k]),
            out@ == cs@.subrange(i + 1, j as int).map_values(|c: char| ascii_lower(c)),
        decreases cs@.len() - j,
    {
        if cs[j] == '_' {
            plain = false;
            assert(!is_alphanumeric(cs@[j as int]));
        }
        out.push(lower_char(cs[j]));
        assert(cs@.subrange(i + 1, j + 1) == cs@.subrange(i + 1, j as int).push(cs@[j as int]));
        assert(out@ =~= cs@.subrange(i + 1, j + 1).map_values(|c: char| ascii_lower(c)));
        j += 1;
    }
    let ghost word = cs@.subrange(i + 1, j as int);
    assert(plain == forall|k: int| 0 <= k < word.len() ==> is_alphanumeric(#[trigger] word[k]))
        by {
        if plain {
            assert forall|k: int| 0 <= k < word.len() implies is_alphanumeric(
                #[trigger] word[k],
            ) by {
                assert(word[k] == cs@[i + 1 + k]);
            }
        } else {
            let k = choose|k: int| i < k < j && !is_alphanumeric(#[trigger] cs@[k]);
            assert(word[k - i - 1] == cs@[k]);
        }
    }
    if plain && 1 <= j - i - 1 && j - i - 1 <= 6 {
        Some(out)
    } else {
        None
    }
}

/// The language hint that a window title gives: the last `.ext` in it where
/// `ext` is one to six letters and digits, in lower case.
pub fn extract_lang_from_title(title: &str) -> (r: Option<String>)
    ensures
        r is Some == last_extension(title@, title@.len() as int) is Some,
        r matches Some(t) ==> last_extension(title@, title@.len() as int) == Some(t@),
{
    let cs = to_chars(title);
    let mut n: usize = cs.len();
    while n > 0
        invariant
            n <= cs@.len(),
            cs@ == title@,
            last_extension(title@, title@.len() as int) == last_extension(title@, n as int),
        decreases n,
    {
        let found = read_extension(cs.as_slice(), n - 1);
        if found.is_some() {
            return found;
        }
        n -= 1;
    }
    None
}

/// A language hint is one to six characters long and holds no capitals.
pub proof fn law_lang_hint_shape(title: Seq<char>, n: int)
    requires
        0 <= n <= title.len(),
    ensures
        last_extension(title, n) matches Some(t) ==> 1 <= t.len() <= 6 && forall|k: int|
            0 <= k < t.len() ==> is_alphanumeric(#[trigger] t[k]) && ascii_lower(t[k]) == t[k],
    decreases n,
{
    if n > 0 {
        if extension_at(title, n - 1) is Some {
            let word = title.subrange(n, word_end(title, n));
            let t = extension_at(title, n - 1)->0;
            assert forall|k: int| 0 <= k < t.len() implies is_alphanumeric(#[trigger] t[k])
                && ascii_lower(t[k]) == t[k] by {
                assert(is_alphanumeric(word[k]));
                assert(t[k] == ascii_lower(word[k]));
            }
        } else {
            law_lang_hint_shape(title, n - 1);
        }
    }
}

// ---------------------------------------------------------------------
// Ages.
// ---------------------------------------------------------------------
/// How an age of `elapsed` seconds is written.
pub open spec fn age_text(elapsed: nat) -> Seq<char> {
    if elapsed < 5 {
        "just now"@
    } else if elapsed < 60 {
        decimal(elapsed) + "s ago"@
    } else if elapsed < 3600 {
        decimal(elapsed / 60) + "m ago"@
    } else if elapsed < 86400 {
        decimal(elapsed / 3600) + "h ago"@
    } else {
        decimal(elapsed / 86400) + "d ago"@
    }
}

/// The seconds from `ts` to `now`, none where `ts` lies ahead.
pub open spec fn elapsed(now: u64, ts: u64) -> nat {
    if now >= ts {
        (now - ts) as nat
    } else {
        0
    }
}

/// How long ago `ts` was at the time `now`.
pub fn relative_time(now: u64, ts: u64) -> (r: String)
    ensures
        r@ == age_text(elapsed(now, ts)),
{
    let e: u64 = if now >= ts {
        now - ts
    } else {
        0
    };
    if e < 5 {
        return "just now".to_owned();
    }
    let mut out = String::new();
    if e < 60 {
        push_decimal(&mut out, e as u128);
        out.append("s ago");
    } else if e < 3600 {
        push_decimal(&mut out, (e / 60) as u128);
        out.append("m ago");
    } else if e < 86400 {
        push_decimal(&mut out, (e / 3600) as u128);
        out.append("h ago");
    } else {
        push_decimal(&mut out, (e / 86400) as u128);
        out.append("d ago");
    }
    assert(out@ =~= age_text(elapsed(now, ts)));
    out
}

// ---------------------------------------------------------------------
// Previews, hints and ages by example.
// ---------------------------------------------------------------------
/// Whether `s` is one line with nothing but text at its ends.
pub open spec fn is_tidy(s: Seq<char>) -> bool {
    &&& !s.contains('\r') && !s.contains('\n') && !s.contains('\t')
    &&& s.len() > 0 ==> !is_white_space(s[0]) && !is_white_space(s.last())
}

/// The preview of a tidy text is the text itself, with white space around it or
/// without, up to the limit; beyond it, as many of its characters as the limit
/// allows and three dots.
pub proof fn law_preview_of_tidy_text(
    lead: Seq<char>,
    s: Seq<char>,
    trail: Seq<char>,
    max: nat,
)
    requires
        is_tidy(s),
        forall|i: int| 0 <= i < lead.len() ==> is_white_space(#[trigger] lead[i]),
        forall|i: int| 0 <= i < trail.len() ==> is_white_space(#[trigger] trail[i]),
    ensures
        preview_text(lead + s + trail, max) == if s.len() <= max {
            s
        } else {
            s.take(max as int) + seq!['.', '.', '.']
        },
{
    let a = flat(lead);
    let b = flat(trail);
    assert forall|i: int| 0 <= i < s.len() implies flat_char(#[trigger] s[i]) == s[i] by {
        assert(s.contains(s[i]));
    }
    assert(flat(lead + s + trail) =~= a + s + b);
    assert forall|i: int| 0 <= i < a.len() implies is_white_space(#[trigger] a[i]) by {
        assert(is_white_space(lead[i]));
    }
    assert forall|i: int| 0 <= i < b.len() implies is_white_space(#[trigger] b[i]) by {
        assert(is_white_space(trail[i]));
    }
    law_trim(a, s, b);
    reveal_strlit("...");
    assert("..."@ =~= seq!['.', '.', '.']);
}

/// Line breaks and tabs are shown as blanks, one for one: a text has the same
/// preview as the same text with a blank in place of one of them.
pub proof fn law_preview_blanks(s: Seq<char>, i: int, max: nat)
    requires
        0 <= i < s.len(),
        s[i] == '\r' || s[i] == '\n' || s[i] == '\t',
    ensures
        preview_text(s, max) == preview_text(s.update(i, ' '), max),
{
    assert(flat(s) =~= flat(s.update(i, ' ')));
}

/// The first line of a text is the first that is not blank: blank lines in
/// front are passed over, and what follows the line makes no difference.
pub proof fn law_first_line(blank: Seq<char>, line: Seq<char>, rest: Seq<char>, max: nat)
    requires
        !blank.contains('\n'),
        forall|i: int| 0 <= i < blank.len() ==> is_white_space(#[trigger] blank[i]),
        is_tidy(line),
        line.len() > 0,
    ensures
        first_line_text(seq![], max) == Seq::<char>::empty(),
        first_line_text(blank, max) == Seq::<char>::empty(),
        first_line_text(blank + seq!['\n'] + rest, max) == first_line_text(rest, max),
        first_line_text(blank + line + seq!['\n'] + rest, max) == if line.len() <= max {
            line
        } else {
            line.take(max as int) + seq!['.', '.', '.']
        },
        first_line_text(blank + line, max) == first_line_text(
            blank + line + seq!['\n'] + rest,
            max,
        ),
{
    reveal_strlit("...");
    assert("..."@ =~= seq!['.', '.', '.']);
    let none: Seq<char> = seq![];
    law_trim(blank, none, none);
    assert(blank + none + none =~= blank);
    law_lines(blank, rest);
    lemma_blank_first(blank, rest);
    let text = blank + line;
    assert(!text.contains('\n')) by {
        if text.contains('\n') {
            let i = choose|i: int| 0 <= i < text.len() && text[i] == '\n';
            if i < blank.len() {
                assert(blank[i] == '\n');
            } else {
                assert(line[i - blank.len()] == '\n');
            }
        }
    }
    law_lines(text, rest);
    law_trim(blank, line, none);
    assert(blank + line + none =~= text);
    assert(text.last() == line.last());
    assert(line.contains(line.last()));
    let both = seq![text] + lines(rest);
    assert(both[0] == text);
    assert(seq![text][0] == text);
    if blank.len() > 0 {
        assert(seq![blank].skip(1) =~= Seq::<Seq<char>>::empty());
        assert(seq![blank][0] == blank);
    } else {
        assert(blank =~= none);
    }
    assert(first_nonblank(Seq::<Seq<char>>::empty()) is None);
    assert(first_line_text(none, max) =~= Seq::<char>::empty());
    assert(first_line_text(blank, max) =~= Seq::<char>::empty());
}

proof fn lemma_blank_first(blank: Seq<char>, rest: Seq<char>)
    requires
        !blank.contains('\n'),
        forall|i: int| 0 <= i < blank.len() ==> is_white_space(#[trigger] blank[i]),
    ensures
        first_nonblank(lines(blank + seq!['\n'] + rest)) == first_nonblank(lines(rest)),
{
    let none: Seq<char> = seq![];
    if blank.len() == 0 || blank.last() != '\r' {
        law_lines(blank, rest);
        law_trim(blank, none, none);
        assert(blank + none + none =~= blank);
        let both = seq![blank] + lines(rest);
        assert(both[0] == blank);
        assert(both.skip(1) =~= lines(rest));
    } else {
        let b = blank.drop_last();
        assert(!b.contains('\n')) by {
            if b.contains('\n') {
                let i = choose|i: int| 0 <= i < b.len() && b[i] == '\n';
                assert(blank[i] == '\n');
            }
        }
        law_lines(b, rest);
        assert(b + seq!['\r', '\n'] + rest =~= blank + seq!['\n'] + rest);
        assert forall|i: int| 0 <= i < b.len() implies is_white_space(#[trigger] b[i]) by {
            assert(is_white_space(blank[i]));
        }
        law_trim(b, none, none);
        assert(b + none + none =~= b);
        let both = seq![b] + lines(rest);
        assert(both[0] == b);
        assert(both.skip(1) =~= lines(rest));
    }
}

/// A window belongs to a code editor exactly where its title holds the name of
/// one, wherever in it that stands.
pub proof fn law_editor_titles(t: Seq<char>, a: Seq<char>, b: Seq<char>)
    ensures
        is_ide_title(a + "Visual Studio Code"@ + b),
        is_ide_title(a + "JetBrains"@ + b),
        is_ide_title(a + "IntelliJ"@ + b),
        is_ide_title(a + "PyCharm"@ + b),
        is_ide_title(a + "Rider"@ + b),
        is_ide_title(a + "GoLand"@ + b),
        is_ide_title(a + "WebStorm"@ + b),
        is_ide_title(a + "Notepad++"@ + b),
        is_ide_title(a + "Microsoft Visual Studio"@ + b),
        is_ide_title(t) ==> exists|x: Seq<char>, y: Seq<char>|
            ({
                ||| #[trigger] (x + "Visual Studio Code"@ + y) == t
                ||| x + "JetBrains"@ + y == t
                ||| x + "IntelliJ"@ + y == t
                ||| x + "PyCharm"@ + y == t
                ||| x + "Rider"@ + y == t
                ||| x + "GoLand"@ + y == t
                ||| x + "WebStorm"@ + y == t
                ||| x + "Notepad++"@ + y == t
                ||| x + "Microsoft Visual Studio"@ + y == t
            }),
{
    law_contains_text(t, "Visual Studio Code"@, a, b);
    law_contains_text(t, "JetBrains"@, a, b);
    law_contains_text(t, "IntelliJ"@, a, b);
    law_contains_text(t, "PyCharm"@, a, b);
    law_contains_text(t, "Rider"@, a, b);
    law_contains_text(t, "GoLand"@, a, b);
    law_contains_text(t, "WebStorm"@, a, b);
    law_contains_text(t, "Notepad++"@, a, b);
    law_contains_text(t, "Microsoft Visual Studio"@, a, b);
    if is_ide_title(t) {
        if contains_text(t, "Visual Studio Code"@) {
            let (x, y) = choose|x: Seq<char>, y: Seq<char>|
                #[trigger] (x + "Visual Studio Code"@ + y) == t;
            assert(x + "Visual Studio Code"@ + y == t);
            assert((x + "Visual Studio Code"@ + y).len() >= 0);
        }
        if contains_text(t, "JetBrains"@) {
            let (x, y) = choose|x: Seq<char>, y: Seq<char>|
                #[trigger] (x + "JetBrains"@ + y) == t;
            assert(x + "JetBrains"@ + y == t);
            assert((x + "Visual Studio Code"@ + y).len() >= 0);
        }
        if contains_text(t, "IntelliJ"@) {
            let (x, y) = choose|x: Seq<char>, y: Seq<char>|
                #[trigger] (x + "IntelliJ"@ + y) == t;
            assert(x + "IntelliJ"@ + y == t);
            assert((x + "Visual Studio Code"@ + y).len() >= 0);
        }
        if contains_text(t, "PyCharm"@) {
            let (x, y) = choose|x: Seq<char>, y: Seq<char>|
                #[trigger] (x + "PyCharm"@ + y) == t;
            assert(x + "PyCharm"@ + y == t);
            assert((x + "Visual Studio Code"@ + y).len() >= 0);
        }
        if contains_text(t, "Rider"@) {
            let (x, y) = choose|x: Seq<char>, y: Seq<char>|
                #[trigger] (x + "Rider"@ + y) == t;
            assert(x + "Rider"@ + y == t);
            assert((x + "Visual Studio Code"@ + y).len() >= 0);
        }
        if contains_text(t, "GoLand"@) {
            let (x, y) = choose|x: Seq<char>, y: Seq<char>|
                #[trigger] (x + "GoLand"@ + y) == t;
            assert(x + "GoLand"@ + y == t);
            assert((x + "Visual Studio Code"@ + y).len() >= 0);
        }
        if contains_text(t, "WebStorm"@) {
            let (x, y) = choose|x: Seq<char>, y: Seq<char>|
                #[trigger] (x + "WebStorm"@ + y) == t;
            assert(x + "WebStorm"@ + y == t);
            assert((x + "Visual Studio Code"@ + y).len() >= 0);
        }
        if contains_text(t, "Notepad++"@) {
            let (x, y) = choose|x: Seq<char>, y: Seq<char>|
                #[trigger] (x + "Notepad++"@ + y) == t;
            assert(x + "Notepad++"@ + y == t);
            assert((x + "Visual Studio Code"@ + y).len() >= 0);
        }
        if contains_text(t, "Microsoft Visual Studio"@) {
            let (x, y) = choose|x: Seq<char>, y: Seq<char>|
                #[trigger] (x + "Microsoft Visual Studio"@ + y) == t;
            assert(x + "Microsoft Visual Studio"@ + y == t);
            assert((x + "Visual Studio Code"@ + y).len() >= 0);
        }
    }
}

/// Words are made up of letters, digits and underscores.
pub proof fn law_word_chars(c: char)
    ensures
        is_word_char(c) == ('0' <= c <= '9' || 'a' <= c <= 'z' || 'A' <= c <= 'Z' || c == '_'),
        is_alphanumeric(c) == ('0' <= c <= '9' || 'a' <= c <= 'z' || 'A' <= c <= 'Z'),
{
}

/// The language hint of a title is the last extension in it, in lower case: one
/// to six letters and digits behind a dot, with no dot in what follows.
pub proof fn law_lang_hint(pre: Seq<char>, ext: Seq<char>, post: Seq<char>)
    requires
        1 <= ext.len() <= 6,
        forall|i: int|
            0 <= i < ext.len() ==> '0' <= #[trigger] ext[i] <= '9' || 'a' <= ext[i] <= 'z' || 'A'
                <= ext[i] <= 'Z',
        !post.contains('.'),
        post.len() > 0 ==> !('0' <= post[0] <= '9') && !('a' <= post[0] <= 'z') && !('A' <= post[0]
            <= 'Z') && post[0] != '_',
    ensures
        ({
            let title = pre + seq!['.'] + ext + post;
            last_extension(title, title.len() as int) == Some(
                ext.map_values(|c: char| ascii_lower(c)),
            )
        }),
{
    let title = pre + seq!['.'] + ext + post;
    let at = pre.len() as int;
    let end = at + 1 + ext.len();
    assert forall|i: int| at < i < title.len() implies #[trigger] title[i] != '.' by {
        if i < end {
            assert(title[i] == ext[i - at - 1]);
        } else {
            assert(title[i] == post[i - end]);
            assert(post.contains(title[i]));
        }
    }
    assert forall|i: int| at + 1 <= i < end implies is_word_char(#[trigger] title[i]) by {
        assert(title[i] == ext[i - at - 1]);
    }
    if end < title.len() {
        assert(title.len() == end + post.len());
        assert(title[end] == post[0]);
        law_word_chars(post[0]);
        assert(!is_word_char(title[end]));
    }
    lemma_word_end_is(title, at + 1, end);
    let word = title.subrange(at + 1, end);
    assert(word =~= ext);
    assert forall|k: int| 0 <= k < word.len() implies is_alphanumeric(#[trigger] word[k]) by {
        assert(word[k] == ext[k]);
    }
    assert(title[at] == '.');
    lemma_last_extension_is(title, at, title.len() as int);
}

/// A title without a dot gives no language hint.
pub proof fn law_no_lang_hint(title: Seq<char>, n: int)
    requires
        !title.contains('.'),
        0 <= n <= title.len(),
    ensures
        last_extension(title, n) is None,
    decreases n,
{
    if n > 0 {
        assert(title.contains(title[n - 1]));
        law_no_lang_hint(title, n - 1);
    }
}

proof fn lemma_word_end_is(s: Seq<char>, i: int, j: int)
    requires
        0 <= i <= j <= s.len(),
        forall|k: int| i <= k < j ==> is_word_char(#[trigger] s[k]),
        j == s.len() || !is_word_char(s[j]),
    ensures
        word_end(s, i) == j,
    decreases j - i,
{
    if i < j {
        assert(is_word_char(s[i]));
        lemma_word_end_is(s, i + 1, j);
    }
}

proof fn lemma_last_extension_is(s: Seq<char>, at: int, n: int)
    requires
        0 <= at < n <= s.len(),
        extension_at(s, at) is Some,
        forall|i: int| at < i < s.len() ==> #[trigger] s[i] != '.',
    ensures
        last_extension(s, n) == extension_at(s, at),
    decreases n,
{
    if n - 1 > at {
        assert(s[n - 1] != '.');
        lemma_last_extension_is(s, at, n - 1);
    }
}

/// Ages are given in whole seconds, minutes, hours or days, whichever is the
/// largest that fits; below five seconds an item is from just now, and so is
/// one from a time that lies ahead.
pub proof fn law_ages(n: nat, rest: nat, now: u64, ts: u64)
    ensures
        n < 5 ==> age_text(n) == "just now"@,
        5 <= n < 60 ==> age_text(n) == decimal(n) + "s ago"@,
        1 <= n < 60 && rest < 60 ==> age_text(60 * n + rest) == decimal(n) + "m ago"@,
        1 <= n < 24 && rest < 3600 ==> age_text(3600 * n + rest) == decimal(n) + "h ago"@,
        1 <= n && rest < 86400 ==> age_text(86400 * n + rest) == decimal(n) + "d ago"@,
        ts >= now ==> age_text(elapsed(now, ts)) == "just now"@,
        now > ts ==> elapsed(now, ts) + ts == now,
{
}

/// A dot that starts no extension is passed over: nothing behind it, more than
/// six characters, or an underscore among them. The hint is then that of what
/// stands in front.
pub proof fn law_no_extension(pre: Seq<char>, word: Seq<char>, post: Seq<char>)
    requires
        forall|i: int|
            0 <= i < word.len() ==> '0' <= #[trigger] word[i] <= '9' || 'a' <= word[i] <= 'z' || 'A'
                <= word[i] <= 'Z' || word[i] == '_',
        word.len() == 0 || word.len() > 6 || word.contains('_'),
        !post.contains('.'),
        post.len() > 0 ==> !('0' <= post[0] <= '9') && !('a' <= post[0] <= 'z') && !('A' <= post[0]
            <= 'Z') && post[0] != '_',
    ensures
        ({
            let title = pre + seq!['.'] + word + post;
            last_extension(title, title.len() as int) == last_extension(pre, pre.len() as int)
        }),
{
    let title = pre + seq!['.'] + word + post;
    let at = pre.len() as int;
    let end = at + 1 + word.len();
    assert forall|i: int| at < i < title.len() implies #[trigger] title[i] != '.' by {
        if i < end {
            assert(title[i] == word[i - at - 1]);
        } else {
            assert(title[i] == post[i - end]);
            assert(post.contains(title[i]));
        }
    }
    assert forall|i: int| at + 1 <= i < end implies is_word_char(#[trigger] title[i]) by {
        assert(title[i] == word[i - at - 1]);
        law_word_chars(title[i]);
    }
    if end < title.len() {
        assert(title.len() == end + post.len());
        assert(title[end] == post[0]);
        law_word_chars(post[0]);
    }
    lemma_word_end_is(title, at + 1, end);
    let found = title.subrange(at + 1, end);
    assert(found =~= word);
    if word.contains('_') {
        let i = choose|i: int| 0 <= i < word.len() && word[i] == '_';
        law_word_chars('_');
        assert(!is_alphanumeric(found[i]));
    }
    assert(extension_at(title, at) is None);
    lemma_last_extension_back(title, at + 1, title.len() as int);
    assert(title.take(at) =~= pre);
    lemma_last_extension_prefix(pre, title, at);
}

proof fn lemma_last_extension_back(s: Seq<char>, from: int, n: int)
    requires
        0 < from <= n <= s.len(),
        forall|i: int| from <= i < s.len() ==> #[trigger] s[i] != '.',
    ensures
        last_extension(s, n) == last_extension(s, from),
    decreases n,
{
    if n > from {
        assert(s[n - 1] != '.');
        lemma_last_extension_back(s, from, n - 1);
    }
}

proof fn lemma_last_extension_prefix(pre: Seq<char>, title: Seq<char>, n: int)
    requires
        0 <= n <= pre.len() < title.len(),
        title.take(pre.len() as int) == pre,
        title[pre.len() as int] == '.',
    ensures
        last_extension(title, n) == last_extension(pre, n),
    decreases n,
{
    if n > 0 {
        lemma_last_extension_prefix(pre, title, n - 1);
        lemma_word_end_prefix(pre, title, n);
        assert(title[n - 1] == title.take(pre.len() as int)[n - 1]);
        lemma_word_end_bounds(pre, n);
        assert(title.subrange(n, word_end(title, n)) =~= pre.subrange(n, word_end(pre, n))) by {
            assert forall|i: int| n <= i < word_end(pre, n) implies title[i] == #[trigger] pre[i] by {
                assert(title.take(pre.len() as int)[i] == title[i]);
            }
        }
    }
}

proof fn lemma_word_end_bounds(s: Seq<char>, i: int)
    requires
        0 <= i <= s.len(),
    ensures
        i <= word_end(s, i) <= s.len(),
    decreases s.len() - i,
{
    if i < s.len() && is_word_char(s[i]) {
        lemma_word_end_bounds(s, i + 1);
    }
}

proof fn lemma_word_end_prefix(pre: Seq<char>, title: Seq<char>, i: int)
    requires
        0 <= i <= pre.len() < title.len(),
        title.take(pre.len() as int) == pre,
        title[pre.len() as int] == '.',
    ensures
        word_end(title, i) == word_end(pre, i),
    decreases pre.len() - i,
{
    law_word_chars('.');
    if i < pre.len() {
        assert(title.take(pre.len() as int)[i] == title[i]);
        if is_word_char(pre[i]) {
            lemma_word_end_prefix(pre, title, i + 1);
        }
    }
}

} // verus!
