//! Fuzzy matching, by way of the `fuzzy-matcher` crate.

use fuzzy_matcher::skim::SkimMatcherV2;
use fuzzy_matcher::FuzzyMatcher;
use vstd::prelude::*;

use crate::text::ascii_lower;

verus! {

/// Whether `p` holds an ASCII capital, which makes case count.
pub open spec fn has_capital(p: Seq<char>) -> bool {
    exists|i: int| 0 <= i < p.len() && 65 <= (#[trigger] p[i]) as u32 <= 90
}

/// Whether two characters match.
pub open spec fn chars_match(a: char, b: char, exact: bool) -> bool {
    if exact {
        a == b
    } else {
        ascii_lower(a) == ascii_lower(b)
    }
}

/// Whether the characters of `pattern` occur in `choice` in their order,
/// anything in between.
pub open spec fn occurs_in_order(choice: Seq<char>, pattern: Seq<char>, exact: bool) -> bool
    decreases choice.len(),
{
    if pattern.len() == 0 {
        true
    } else if choice.len() == 0 {
        false
    } else if chars_match(choice[0], pattern[0], exact) {
        occurs_in_order(choice.skip(1), pattern.skip(1), exact)
    } else {
        occurs_in_order(choice.skip(1), pattern, exact)
    }
}

/// Whether `pattern` matches `choice`: its characters occur in order, in either
/// case unless the pattern holds a capital.
pub open spec fn fuzzy_matches(choice: Seq<char>, pattern: Seq<char>) -> bool {
    occurs_in_order(choice, pattern, has_capital(pattern))
}

/// Whether the score table for two texts of these lengths fits in memory, and
/// its scores in 32 bits.
pub open spec fn match_fits(choice: nat, pattern: nat) -> bool {
    &&& choice < 0x4000_0000
    &&& pattern < 0x400_0000
    &&& 32 * ((choice + 1) * (pattern + 1)) <= isize::MAX
}

/// Whether the score table for two texts of these lengths fits.
pub fn can_match(choice: usize, pattern: usize) -> (r: bool)
    ensures
        r == match_fits(choice as nat, pattern as nat),
{
    if choice >= 0x4000_0000 || pattern >= 0x400_0000 {
        return false;
    }
    assert((choice + 1) * (pattern + 1) <= 0x4000_0000 * 0x400_0000) by (nonlinear_arith)
        requires
            choice + 1 <= 0x4000_0000,
            pattern + 1 <= 0x400_0000,
    ;
    32 * ((choice as u128 + 1) * (pattern as u128 + 1)) <= isize::MAX as u128
}

/// The score of `pattern` in `choice` and the matched characters, as
/// `SkimMatcherV2` finds them.
pub uninterp spec fn skim_match(choice: Seq<char>, pattern: Seq<char>) -> Option<(i64, Seq<usize>)>;

/// `fuzzy_indices` of a new `SkimMatcherV2` with its default settings. There
/// is a match where the characters of the pattern occur in order; the indices
/// are those of characters of `choice`, in ascending order. Which alignment is
/// chosen and what it scores is left to the name `skim_match`. A matcher that
/// was used before scores from what is left in its table, so each call makes
/// one of its own: the score of an item is then that of its own text.
#[verifier::external_body]
pub(crate) fn fuzzy_indices(choice: &str, pattern: &str) -> (r: Option<(i64, Vec<usize>)>)
    requires
        match_fits(choice@.len(), pattern@.len()),
    ensures
        r is Some == skim_match(choice@, pattern@) is Some,
        r matches Some((score, at)) ==> skim_match(choice@, pattern@) == Some((score, at@)),
        r is Some == fuzzy_matches(choice@, pattern@),
        r matches Some((score, at)) ==> forall|k: int|
            0 <= k < at@.len() ==> #[trigger] at@[k] < choice@.len(),
        r matches Some((score, at)) ==> forall|j: int, k: int|
            0 <= j < k < at@.len() ==> #[trigger] at@[j] < #[trigger] at@[k],
{
    SkimMatcherV2::default().fuzzy_indices(choice, pattern)
}

/// Nothing matches everything, any text matches itself, and a longer pattern
/// than the text never matches.
pub proof fn law_match_basics(choice: Seq<char>, pattern: Seq<char>, exact: bool)
    ensures
        occurs_in_order(choice, seq![], exact),
        occurs_in_order(choice, choice, exact),
        pattern.len() > choice.len() ==> !occurs_in_order(choice, pattern, exact),
    decreases choice.len(),
{
    if choice.len() > 0 {
        law_match_basics(choice.skip(1), choice.skip(1), exact);
        if pattern.len() > choice.len() {
            law_match_basics(choice.skip(1), pattern.skip(1), exact);
            law_match_basics(choice.skip(1), pattern, exact);
        }
    }
}

/// What matches a text still matches it with more text anywhere around it.
pub proof fn law_more_text_matches(
    before: Seq<char>,
    choice: Seq<char>,
    after: Seq<char>,
    pattern: Seq<char>,
    exact: bool,
)
    requires
        occurs_in_order(choice, pattern, exact),
    ensures
        occurs_in_order(before + choice + after, pattern, exact),
{
    lemma_more_behind(choice, after, pattern, exact);
    lemma_more_in_front(before, choice + after, pattern, exact);
    assert(before + choice + after =~= before + (choice + after));
}

proof fn lemma_more_behind(choice: Seq<char>, after: Seq<char>, pattern: Seq<char>, exact: bool)
    requires
        occurs_in_order(choice, pattern, exact),
    ensures
        occurs_in_order(choice + after, pattern, exact),
    decreases choice.len(),
{
    if pattern.len() > 0 && choice.len() > 0 {
        assert((choice + after)[0] == choice[0]);
        assert((choice + after).skip(1) =~= choice.skip(1) + after);
        if chars_match(choice[0], pattern[0], exact) {
            lemma_more_behind(choice.skip(1), after, pattern.skip(1), exact);
        } else {
            lemma_more_behind(choice.skip(1), after, pattern, exact);
        }
    }
}

proof fn lemma_more_in_front(before: Seq<char>, choice: Seq<char>, pattern: Seq<char>, exact: bool)
    requires
        occurs_in_order(choice, pattern, exact),
    ensures
        occurs_in_order(before + choice, pattern, exact),
    decreases before.len(),
{
    if before.len() > 0 {
        assert((before + choice)[0] == before[0]);
        assert((before + choice).skip(1) =~= before.skip(1) + choice);
        lemma_more_in_front(before.skip(1), choice, pattern, exact);
        if pattern.len() > 0 && chars_match(before[0], pattern[0], exact) {
            lemma_less_pattern(before.skip(1) + choice, pattern, exact);
        }
    } else {
        assert(before + choice =~= choice);
    }
}

proof fn lemma_less_pattern(choice: Seq<char>, pattern: Seq<char>, exact: bool)
    requires
        pattern.len() > 0,
        occurs_in_order(choice, pattern, exact),
    ensures
        occurs_in_order(choice, pattern.skip(1), exact),
    decreases choice.len(),
{
    let rest = pattern.skip(1);
    if rest.len() > 0 && choice.len() > 0 {
        if chars_match(choice[0], pattern[0], exact) {
            if chars_match(choice[0], rest[0], exact) {
                lemma_less_pattern(choice.skip(1), rest, exact);
            }
        } else {
            lemma_less_pattern(choice.skip(1), pattern, exact);
            if chars_match(choice[0], rest[0], exact) {
                lemma_less_pattern(choice.skip(1), rest, exact);
            }
        }
    }
}

proof fn lemma_capital(c: char)
    ensures
        (65 <= c as u32 <= 90) == ('A' <= c <= 'Z'),
{
}

/// Case counts exactly where the pattern holds a capital from `A` to `Z`.
pub proof fn law_case(pattern: Seq<char>, c: char, i: int)
    ensures
        0 <= i < pattern.len() && 'A' <= pattern[i] <= 'Z' ==> has_capital(pattern),
        (forall|k: int| 0 <= k < pattern.len() ==> !('A' <= #[trigger] pattern[k] <= 'Z'))
            ==> !has_capital(pattern),
        chars_match(c, c, true) && chars_match(c, c, false),
        0 <= i < 26 ==> chars_match(
            "ABCDEFGHIJKLMNOPQRSTUVWXYZ"@[i],
            "abcdefghijklmnopqrstuvwxyz"@[i],
            false,
        ) && !chars_match(
            "ABCDEFGHIJKLMNOPQRSTUVWXYZ"@[i],
            "abcdefghijklmnopqrstuvwxyz"@[i],
            true,
        ),
{
    reveal_strlit("ABCDEFGHIJKLMNOPQRSTUVWXYZ");
    reveal_strlit("abcdefghijklmnopqrstuvwxyz");
    if forall|k: int| 0 <= k < pattern.len() ==> !('A' <= #[trigger] pattern[k] <= 'Z') {
        if has_capital(pattern) {
            let k = choose|k: int| 0 <= k < pattern.len() && 65 <= (#[trigger] pattern[k]) as u32 <= 90;
            lemma_capital(pattern[k]);
        }
    }
}

/// Where case counts only the same characters match, and where it does not only
/// those that differ in the case of an ASCII letter besides.
pub proof fn law_chars_match(a: char, b: char)
    ensures
        chars_match(a, b, true) == (a == b),
        chars_match(a, b, false) ==> a == b || ('A' <= a <= 'Z' && b as u32 == a as u32 + 32) || ('A'
            <= b <= 'Z' && a as u32 == b as u32 + 32),
        chars_match(a, b, false) == chars_match(b, a, false),
{
}

} // verus!
