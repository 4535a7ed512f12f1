//! The list that the popup shows: which items, in which order.

use vstd::prelude::*;
use vstd::utf8::*;

use crate::fuzzy::fuzzy_indices;
use crate::fuzzy::{fuzzy_matches, match_fits, skim_match};
use crate::item::{ClipItem, FilterRow, ItemType};
use crate::item::{row_views, tag_text, text_of, views, ItemView};
use crate::preview::relative_time;
use crate::preview::{age_text, elapsed};
use crate::text::{from_chars, to_chars, trim_range};
use crate::text::lemma_encode_concat;
use crate::text::trim;

verus! {

// ---------------------------------------------------------------------
// Labels.
// ---------------------------------------------------------------------
/// What stands in front of an item: the tag of its kind, for code with the
/// language hint.
pub open spec fn label_text(kind: ItemType, lang: Option<Seq<char>>) -> Seq<char> {
    match lang {
        Some(l) => if kind == ItemType::Code && l.len() > 0 {
            "[C:"@ + l + "]"@
        } else {
            tag_text(kind)
        },
        None => tag_text(kind),
    }
}

/// What stands in front of an item.
pub fn item_label(item: &ClipItem) -> (r: String)
    ensures
        r@ == label_text(item.kind, text_of(item.lang)),
{
    if item.kind == ItemType::Code {
        if let Some(lang) = &item.lang {
            if !lang.as_str().is_empty() {
                let mut out = "[C:".to_owned();
                out.append(lang.as_str());
                out.append("]");
                return out;
            }
        }
    }
    item.kind.tag().to_owned()
}

/// The line that stands for an item where only text can be shown: label,
/// preview and age, two blanks between them.
pub open spec fn line_text(item: ItemView, now: u64) -> Seq<char> {
    label_text(item.kind, item.lang) + "  "@ + item.preview + "  "@ + age_text(
        elapsed(now, item.timestamp),
    )
}

/// The line that stands for an item where only text can be shown.
pub fn format_item_line(item: &ClipItem, now: u64) -> (r: String)
    ensures
        r@ == line_text(item@, now),
{
    let mut out = item_label(item);
    out.append("  ");
    out.append(item.preview.as_str());
    out.append("  ");
    let age = relative_time(now, item.timestamp);
    out.append(age.as_str());
    out
}

// ---------------------------------------------------------------------
// Byte offsets of matched characters.
// ---------------------------------------------------------------------
/// The byte at which character `i` of `s` starts.
pub open spec fn byte_offset(s: Seq<char>, i: int) -> nat {
    encode_utf8(s.take(i)).len()
}

/// The bytes at which the given characters of `s` start.
pub open spec fn byte_offsets(s: Seq<char>, at: Seq<usize>) -> Seq<usize> {
    at.map_values(|i: usize| byte_offset(s, i as int) as usize)
}

/// Whether a character of `s` starts at byte `n`.
pub open spec fn starts_char(s: Seq<char>, n: int) -> bool {
    exists|i: int| 0 <= i < s.len() && #[trigger] byte_offset(s, i) == n
}

/// Whether `indices` are bytes at which characters of `s` start, in ascending
/// order.
pub open spec fn marks_chars(s: Seq<char>, indices: Seq<usize>) -> bool {
    &&& forall|k: int| 0 <= k < indices.len() ==> starts_char(s, (#[trigger] indices[k]) as int)
    &&& forall|j: int, k: int|
        0 <= j < k < indices.len() ==> #[trigger] indices[j] < #[trigger] indices[k]
}

/// The number of bytes that a character takes.
pub fn char_bytes(c: char) -> (r: usize)
    ensures
        r == encode_scalar(c as u32).len(),
{
    proof {
        char_is_scalar(c);
    }
    let n: u32 = c as u32;
    if n < 0x80 {
        1
    } else if n < 0x800 {
        2
    } else if n < 0x10000 {
        3
    } else {
        4
    }
}

/// The offset of the next character.
pub proof fn lemma_next_offset(s: Seq<char>, i: int)
    requires
        0 <= i < s.len(),
    ensures
        byte_offset(s, i + 1) == byte_offset(s, i) + encode_scalar(s[i] as u32).len(),
        byte_offset(s, i + 1) <= encode_utf8(s).len(),
{
    let one = seq![s[i]];
    assert(s.take(i + 1) =~= s.take(i) + one);
    lemma_encode_concat(s.take(i), one);
    assert(one.drop_first() =~= seq![]);
    assert(encode_utf8(one.drop_first()) =~= seq![]);
    assert(encode_utf8(one) =~= encode_scalar(s[i] as u32));
    lemma_encode_concat(s.take(i + 1), s.skip(i + 1));
    assert(s.take(i + 1) + s.skip(i + 1) =~= s);
}

/// Whether `at` ascends and stays below `n`.
pub open spec fn ascending_below(at: Seq<usize>, n: nat) -> bool {
    &&& forall|k: int| 0 <= k < at.len() ==> #[trigger] at[k] < n
    &&& forall|j: int, k: int| 0 <= j < k < at.len() ==> #[trigger] at[j] < #[trigger] at[k]
}

/// The bytes at which the given characters of `s` start.
fn offsets_of(s: &str, at: &Vec<usize>) -> (r: Vec<usize>)
    requires
        ascending_below(at@, s@.len()),
    ensures
        r@ == byte_offsets(s@, at@),
        marks_chars(s@, r@),
{
    let cs = to_chars(s);
    let total: usize = s.as_bytes().len();
    let mut out: Vec<usize> = Vec::new();
    let mut offset: usize = 0;
    let mut i: usize = 0;
    let mut k: usize = 0;
    assert(s@.take(0) =~= seq![]);
    assert(encode_utf8(s@.take(0)) =~= seq![]);
    while k < at.len()
        invariant
            k <= at@.len(),
            i <= cs@.len(),
            cs@ == s@,
            total == encode_utf8(s@).len(),
            offset == byte_offset(s@, i as int),
            offset <= total,
            out@ == byte_offsets(s@, at@.take(k as int)),
            ascending_below(at@, s@.len()),
            k < at@.len() ==> i <= at@[k as int],
        decreases at@.len() - k, s@.len() - i,
    {
        if i < at[k] {
            proof {
                lemma_next_offset(s@, i as int);
            }
            offset += char_bytes(cs[i]);
            i += 1;
        } else {
            out.push(offset);
            assert(at@.take(k + 1) =~= at@.take(k as int).push(at@[k as int]));
            assert(out@ =~= byte_offsets(s@, at@.take(k + 1)));
            k += 1;
        }
    }
    assert(at@.take(at@.len() as int) =~= at@);
    proof {
        lemma_offsets_mark(s@, at@);
    }
    out
}

/// The offsets of characters mark characters.
proof fn lemma_offsets_mark(s: Seq<char>, at: Seq<usize>)
    requires
        ascending_below(at, s.len()),
        encode_utf8(s).len() <= usize::MAX,
    ensures
        marks_chars(s, byte_offsets(s, at)),
{
    let indices = byte_offsets(s, at);
    assert forall|k: int| 0 <= k < indices.len() implies starts_char(
        s,
        (#[trigger] indices[k]) as int,
    ) by {
        assert(at[k] < s.len());
        lemma_next_offset(s, at[k] as int);
        assert(byte_offset(s, at[k] as int) == indices[k]);
    }
    assert forall|j: int, k: int| 0 <= j < k < indices.len() implies #[trigger] indices[j]
        < #[trigger] indices[k] by {
        law_offsets_ascend(s, at, j, k);
    }
}

/// Offsets come in the order of the characters.
proof fn lemma_offsets_ascend(s: Seq<char>, i: int, j: int)
    requires
        0 <= i < j <= s.len(),
    ensures
        byte_offset(s, i) < byte_offset(s, j),
    decreases j - i,
{
    lemma_next_offset(s, j - 1);
    char_is_scalar(s[j - 1]);
    assert(encode_scalar(s[j - 1] as u32).len() >= 1);
    if i < j - 1 {
        lemma_offsets_ascend(s, i, j - 1);
    }
}

// ---------------------------------------------------------------------
// Ranking.
// ---------------------------------------------------------------------
/// The score of a result.
pub open spec fn score_of(result: Option<(i64, Seq<usize>)>) -> i64 {
    match result {
        Some((score, _)) => score,
        None => 0,
    }
}

/// The matched characters of a result.
pub open spec fn matched_of(result: Option<(i64, Seq<usize>)>) -> Seq<usize> {
    match result {
        Some((_, at)) => at,
        None => seq![],
    }
}

/// Whether item `a` comes before item `b`: pinned items first, then the higher
/// score, then the newer item.
pub open spec fn outranks(
    hist: Seq<ItemView>,
    results: Seq<Option<(i64, Seq<usize>)>>,
    a: int,
    b: int,
) -> bool {
    if hist[a].pinned != hist[b].pinned {
        hist[a].pinned
    } else if score_of(results[a]) != score_of(results[b]) {
        score_of(results[a]) > score_of(results[b])
    } else {
        a > b
    }
}

/// Whether `order` lists the items that have a result, each once, in order of
/// rank.
pub open spec fn is_ranking(
    hist: Seq<ItemView>,
    results: Seq<Option<(i64, Seq<usize>)>>,
    order: Seq<usize>,
) -> bool {
    &&& forall|k: int|
        0 <= k < order.len() ==> #[trigger] order[k] < hist.len() && results[order[k] as int] is Some
    &&& forall|j: int, k: int|
        0 <= j < k < order.len() ==> outranks(
            hist,
            results,
            (#[trigger] order[j]) as int,
            (#[trigger] order[k]) as int,
        )
    &&& forall|i: int|
        0 <= i < hist.len() && results[i] is Some ==> #[trigger] order.contains(i as usize)
}

/// The history indices of rows.
pub open spec fn row_order(rows: Seq<(usize, Seq<usize>)>) -> Seq<usize> {
    rows.map_values(|r: (usize, Seq<usize>)| r.0)
}

/// Whether `rows` are the rows for a history and the results of a search: in
/// order of rank, each with the offsets of its matched characters.
pub open spec fn are_rows(
    hist: Seq<ItemView>,
    results: Seq<Option<(i64, Seq<usize>)>>,
    rows: Seq<(usize, Seq<usize>)>,
) -> bool {
    &&& is_ranking(hist, results, row_order(rows))
    &&& forall|k: int|
        0 <= k < rows.len() ==> (#[trigger] rows[k]).1 == byte_offsets(
            hist[rows[k].0 as int].preview,
            matched_of(results[rows[k].0 as int]),
        )
}

/// The results of a search, as mathematical values.
pub open spec fn result_views(results: Seq<Option<(i64, Vec<usize>)>>) -> Seq<
    Option<(i64, Seq<usize>)>,
> {
    results.map_values(
        |r: Option<(i64, Vec<usize>)>|
            match r {
                Some((score, at)) => Some((score, at@)),
                None => None,
            },
    )
}

/// Whether the indices of a result are those of characters of `preview`, in
/// ascending order.
pub open spec fn result_fits(preview: Seq<char>, result: Option<(i64, Seq<usize>)>) -> bool {
    ascending_below(matched_of(result), preview.len())
}

/// Whether item `a`, newer than item `b`, comes before it.
fn newer_first(
    hist: &Vec<ClipItem>,
    results: &Vec<Option<(i64, Vec<usize>)>>,
    a: usize,
    b: usize,
) -> (r: bool)
    requires
        b < a < hist@.len(),
        results@.len() == hist@.len(),
        results@[a as int] is Some,
        results@[b as int] is Some,
    ensures
        r == outranks(views(hist@), result_views(results@), a as int, b as int),
        !r == outranks(views(hist@), result_views(results@), b as int, a as int),
{
    assert(views(hist@)[a as int] == hist@[a as int]@);
    assert(views(hist@)[b as int] == hist@[b as int]@);
    if hist[a].pinned != hist[b].pinned {
        return hist[a].pinned;
    }
    match (&results[a], &results[b]) {
        (Some((sa, _)), Some((sb, _))) => *sa >= *sb,
        _ => false,
    }
}

/// The items that have a result, in order of rank.
fn rank_items(hist: &Vec<ClipItem>, results: &Vec<Option<(i64, Vec<usize>)>>) -> (r: Vec<usize>)
    requires
        results@.len() == hist@.len(),
    ensures
        is_ranking(views(hist@), result_views(results@), r@),
{
    let ghost hv = views(hist@);
    let ghost rv = result_views(results@);
    let mut order: Vec<usize> = Vec::new();
    let mut i: usize = 0;
    while i < hist.len()
        invariant
            i <= hist@.len(),
            results@.len() == hist@.len(),
            hv == views(hist@),
            rv == result_views(results@),
            forall|k: int|
                0 <= k < order@.len() ==> #[trigger] order@[k] < i && rv[order@[k] as int] is Some,
            forall|j: int, k: int|
                0 <= j < k < order@.len() ==> outranks(
                    hv,
                    rv,
                    (#[trigger] order@[j]) as int,
                    (#[trigger] order@[k]) as int,
                ),
            forall|n: int|
                0 <= n < i && rv[n] is Some ==> #[trigger] order@.contains(n as usize),
        decreases hist@.len() - i,
    {
        if results[i].is_some() {
            let mut p: usize = 0;
            while p < order.len() && !newer_first(hist, results, i, order[p])
                invariant
                    p <= order@.len(),
                    i < hist@.len(),
                    results@.len() == hist@.len(),
                    results@[i as int] is Some,
                    hv == views(hist@),
                    rv == result_views(results@),
                    forall|k: int|
                        0 <= k < order@.len() ==> #[trigger] order@[k] < i
                            && rv[order@[k] as int] is Some,
                    forall|k: int|
                        0 <= k < p ==> outranks(hv, rv, (#[trigger] order@[k]) as int, i as int),
                decreases order@.len() - p,
            {
                p += 1;
            }
            let ghost before = order@;
            order.insert(p, i);
            assert forall|j: int, k: int| 0 <= j < k < order@.len() implies outranks(
                hv,
                rv,
                (#[trigger] order@[j]) as int,
                (#[trigger] order@[k]) as int,
            ) by {
                let bj = if j < p {
                    j
                } else {
                    j - 1
                };
                let bk = if k < p {
                    k
                } else {
                    k - 1
                };
                if j != p {
                    assert(order@[j] == before[bj]);
                }
                if k != p {
                    assert(order@[k] == before[bk]);
                }
                if j == p {
                    // What stood at `p` is outranked, and so is what stood
                    // behind it.
                    assert(outranks(hv, rv, i as int, before[p as int] as int));
                    if bk > p {
                        assert(outranks(hv, rv, before[p as int] as int, before[bk] as int));
                    }
                }
            }
            assert forall|n: int| 0 <= n < i + 1 && rv[n] is Some implies #[trigger] order@.contains(
                n as usize,
            ) by {
                if n == i {
                    assert(order@[p as int] == n as usize);
                } else {
                    assert(before.contains(n as usize));
                    let k = choose|k: int| 0 <= k < before.len() && before[k] == n as usize;
                    let at = if k < p {
                        k
                    } else {
                        k + 1
                    };
                    assert(order@[at] == n as usize);
                }
            }
            assert forall|k: int| 0 <= k < order@.len() implies #[trigger] order@[k] < i + 1
                && rv[order@[k] as int] is Some by {
                if k < p {
                    assert(order@[k] == before[k]);
                } else if k > p {
                    assert(order@[k] == before[k - 1]);
                }
            }
        }
        i += 1;
    }
    order
}

/// The rows for a history and the results of a search, one result for each
/// item.
pub fn rank(hist: &Vec<ClipItem>, results: &Vec<Option<(i64, Vec<usize>)>>) -> (r: Vec<FilterRow>)
    requires
        results@.len() == hist@.len(),
        forall|i: int|
            0 <= i < hist@.len() ==> result_fits(
                (#[trigger] hist@[i]).preview@,
                result_views(results@)[i],
            ),
    ensures
        are_rows(views(hist@), result_views(results@), row_views(r@)),
        forall|k: int|
            0 <= k < r@.len() ==> marks_chars(
                views(hist@)[(#[trigger] r@[k]).hist_index as int].preview,
                r@[k].indices@,
            ),
{
    let order = rank_items(hist, results);
    let mut rows: Vec<FilterRow> = Vec::new();
    let mut k: usize = 0;
    while k < order.len()
        invariant
            k <= order@.len(),
            results@.len() == hist@.len(),
            is_ranking(views(hist@), result_views(results@), order@),
            forall|i: int|
                0 <= i < hist@.len() ==> result_fits(
                    (#[trigger] hist@[i]).preview@,
                    result_views(results@)[i],
                ),
            rows@.len() == k,
            forall|j: int|
                0 <= j < k ==> (#[trigger] rows@[j])@ == (
                    order@[j],
                    byte_offsets(
                        views(hist@)[order@[j] as int].preview,
                        matched_of(result_views(results@)[order@[j] as int]),
                    ),
                ),
            forall|j: int|
                0 <= j < k ==> marks_chars(
                    views(hist@)[(#[trigger] rows@[j]).hist_index as int].preview,
                    rows@[j].indices@,
                ),
        decreases order@.len() - k,
    {
        let i: usize = order[k];
        assert(i < hist@.len());
        assert(result_fits(hist@[i as int].preview@, result_views(results@)[i as int]));
        match &results[i] {
            Some((score, at)) => {
                assert(result_views(results@)[i as int] == Some((*score, at@)));
                assert(views(hist@)[i as int].preview == hist@[i as int].preview@);
                let indices = offsets_of(hist[i].preview.as_str(), at);
                rows.push(FilterRow { hist_index: i, indices });
            },
            None => {
                assert(false);
            },
        }
        k += 1;
    }
    assert(row_order(row_views(rows@)) =~= order@);
    rows
}

/// The results of a search for `query`: what the matcher finds, or for an
/// empty query every item with no character matched.
pub open spec fn search_results(hist: Seq<ItemView>, query: Seq<char>) -> Seq<
    Option<(i64, Seq<usize>)>,
> {
    Seq::new(
        hist.len(),
        |i: int|
            if query.len() == 0 {
                Some((0i64, Seq::<usize>::empty()))
            } else {
                skim_match(hist[i].preview, query)
            },
    )
}

/// The rows to show for a query, blanks around it aside: all items where it is
/// empty, otherwise those whose preview it matches. Pinned items come first,
/// then higher scores, then newer items.
pub fn update_filter(hist: &Vec<ClipItem>, query: &str) -> (r: Vec<FilterRow>)
    requires
        trim(query@).len() > 0 ==> forall|i: int|
            0 <= i < hist@.len() ==> match_fits(
                (#[trigger] hist@[i]).preview@.len(),
                trim(query@).len(),
            ),
    ensures
        are_rows(views(hist@), search_results(views(hist@), trim(query@)), row_views(r@)),
        forall|i: int|
            0 <= i < hist@.len() ==> result_fits(
                (#[trigger] views(hist@)[i]).preview,
                search_results(views(hist@), trim(query@))[i],
            ),
        forall|k: int|
            0 <= k < r@.len() ==> marks_chars(
                views(hist@)[(#[trigger] r@[k]).hist_index as int].preview,
                r@[k].indices@,
            ),
        forall|i: int|
            #![trigger row_order(row_views(r@)).contains(i as usize)]
            0 <= i < hist@.len() ==> row_order(row_views(r@)).contains(i as usize) == (trim(
                query@,
            ).len() == 0 || fuzzy_matches(hist@[i].preview@, trim(query@))),
{
    let cs = to_chars(query);
    let (lo, hi) = trim_range(cs.as_slice());
    let trimmed = from_chars(&cs[lo..hi]);
    let ghost q = trimmed@;
    assert(q == trim(query@));
    let mut results: Vec<Option<(i64, Vec<usize>)>> = Vec::new();
    let mut i: usize = 0;
    while i < hist.len()
        invariant
            i <= hist@.len(),
            q == trimmed@,
            lo <= hi,
            q.len() == hi - lo,
            q.len() > 0 ==> forall|k: int|
                0 <= k < hist@.len() ==> match_fits((#[trigger] hist@[k]).preview@.len(), q.len()),
            results@.len() == i,
            forall|k: int|
                0 <= k < i ==> #[trigger] result_views(results@)[k] == search_results(
                    views(hist@),
                    q,
                )[k],
            forall|k: int|
                0 <= k < i ==> result_fits(
                    (#[trigger] hist@[k]).preview@,
                    result_views(results@)[k],
                ),
            forall|k: int|
                0 <= k < i ==> (#[trigger] results@[k] is Some) == (q.len() == 0 || fuzzy_matches(
                    hist@[k].preview@,
                    q,
                )),
        decreases hist@.len() - i,
    {
        let ghost before = result_views(results@);
        assert(views(hist@)[i as int].preview == hist@[i as int].preview@);
        let result: Option<(i64, Vec<usize>)> = if lo == hi {
            let none: Vec<usize> = Vec::new();
            assert(none@ =~= Seq::<usize>::empty());
            Some((0, none))
        } else {
            fuzzy_indices(hist[i].preview.as_str(), trimmed.as_str())
        };
        results.push(result);
        assert forall|k: int| 0 <= k < i implies #[trigger] result_views(results@)[k]
            == before[k] by {}
        i += 1;
    }
    assert(result_views(results@) =~= search_results(views(hist@), q));
    let rows = rank(hist, &results);
    proof {
        assert forall|n: int| 0 <= n < hist@.len() implies result_fits(
            (#[trigger] views(hist@)[n]).preview,
            search_results(views(hist@), trim(query@))[n],
        ) by {
            assert(views(hist@)[n].preview == hist@[n].preview@);
        }
        let order = row_order(row_views(rows@));
        let rv = result_views(results@);
        assert forall|n: int|
            #![trigger order.contains(n as usize)]
            0 <= n < hist@.len() implies order.contains(n as usize) == (q.len() == 0
            || fuzzy_matches(hist@[n].preview@, q)) by {
            assert(rv[n] is Some == results@[n] is Some);
            if order.contains(n as usize) {
                let k = choose|k: int| 0 <= k < order.len() && order[k] == n as usize;
                assert(rv[order[k] as int] is Some);
            }
        }
    }
    rows
}

/// There is only one way to list items in order of rank.
pub proof fn law_ranking_is_unique(
    hist: Seq<ItemView>,
    results: Seq<Option<(i64, Seq<usize>)>>,
    a: Seq<usize>,
    b: Seq<usize>,
)
    requires
        results.len() == hist.len(),
        hist.len() <= usize::MAX,
        is_ranking(hist, results, a),
        is_ranking(hist, results, b),
    ensures
        a == b,
{
    lemma_ranking_prefix(hist, results, a, b, a.len() as int);
    lemma_ranking_prefix(hist, results, b, a, b.len() as int);
    assert(a.take(a.len() as int) =~= a);
    assert(b.take(b.len() as int) =~= b);
}

/// Two rankings agree from the front.
proof fn lemma_ranking_prefix(
    hist: Seq<ItemView>,
    results: Seq<Option<(i64, Seq<usize>)>>,
    a: Seq<usize>,
    b: Seq<usize>,
    n: int,
)
    requires
        results.len() == hist.len(),
        hist.len() <= usize::MAX,
        is_ranking(hist, results, a),
        is_ranking(hist, results, b),
        0 <= n <= a.len(),
    ensures
        n <= b.len(),
        a.take(n) == b.take(n),
    decreases n,
{
    if n > 0 {
        lemma_ranking_prefix(hist, results, a, b, n - 1);
        let k = n - 1;
        assert(forall|j: int| 0 <= j < k ==> a.take(k)[j] == b.take(k)[j]);
        // `a[k]` has a place in `b`, and it cannot be in front of `k`.
        assert(a[k] < hist.len() && results[a[k] as int] is Some);
        assert(b.contains(a[k] as int as usize));
        let m = choose|m: int| 0 <= m < b.len() && b[m] == a[k];
        if m < k {
            assert(a[m] == a.take(k)[m]);
            assert(b[m] == b.take(k)[m]);
            assert(outranks(hist, results, a[m] as int, a[k] as int));
        }
        // Nor can `b[k]` be in front of `k` in `a`.
        assert(b[k] < hist.len() && results[b[k] as int] is Some);
        assert(a.contains(b[k] as int as usize));
        let l = choose|l: int| 0 <= l < a.len() && a[l] == b[k];
        if l < k {
            assert(a[l] == a.take(k)[l]);
            assert(b[l] == b.take(k)[l]);
            assert(outranks(hist, results, b[l] as int, b[k] as int));
        }
        if m > k && l > k {
            assert(outranks(hist, results, b[k] as int, b[m] as int));
            assert(outranks(hist, results, a[k] as int, a[l] as int));
        }
        assert(a[k] == b[k]);
        assert(a.take(n) =~= a.take(k).push(a[k]));
        assert(b.take(n) =~= b.take(k).push(b[k]));
    }
}

/// Pinned items come above all others, whatever is searched for.
pub proof fn law_pinned_rows_first(
    hist: Seq<ItemView>,
    results: Seq<Option<(i64, Seq<usize>)>>,
    rows: Seq<(usize, Seq<usize>)>,
    j: int,
    k: int,
)
    requires
        are_rows(hist, results, rows),
        0 <= j < k < rows.len(),
        hist[rows[k].0 as int].pinned,
    ensures
        hist[rows[j].0 as int].pinned,
{
    let order = row_order(rows);
    assert(order[j] == rows[j].0 && order[k] == rows[k].0);
    assert(outranks(hist, results, order[j] as int, order[k] as int));
}

/// No item is shown twice.
pub proof fn law_rows_are_distinct(
    hist: Seq<ItemView>,
    results: Seq<Option<(i64, Seq<usize>)>>,
    rows: Seq<(usize, Seq<usize>)>,
    j: int,
    k: int,
)
    requires
        are_rows(hist, results, rows),
        0 <= j < k < rows.len(),
    ensures
        rows[j].0 != rows[k].0,
{
    let order = row_order(rows);
    assert(order[j] == rows[j].0 && order[k] == rows[k].0);
    assert(outranks(hist, results, order[j] as int, order[k] as int));
}

/// Without a search, newer items stand above older ones that are pinned or not
/// pinned alike.
pub proof fn law_newest_first(
    hist: Seq<ItemView>,
    rows: Seq<(usize, Seq<usize>)>,
    j: int,
    k: int,
)
    requires
        are_rows(hist, search_results(hist, seq![]), rows),
        0 <= j < k < rows.len(),
        hist[rows[j].0 as int].pinned == hist[rows[k].0 as int].pinned,
    ensures
        rows[j].0 > rows[k].0,
{
    let order = row_order(rows);
    let results = search_results(hist, seq![]);
    assert(order[j] == rows[j].0 && order[k] == rows[k].0);
    assert(outranks(hist, results, order[j] as int, order[k] as int));
}

/// The offsets of the matched characters ascend.
pub proof fn law_offsets_ascend(s: Seq<char>, at: Seq<usize>, j: int, k: int)
    requires
        ascending_below(at, s.len()),
        0 <= j < k < at.len(),
        encode_utf8(s).len() <= usize::MAX,
    ensures
        byte_offsets(s, at)[j] < byte_offsets(s, at)[k],
{
    lemma_offsets_ascend(s, at[j] as int, at[k] as int);
    lemma_next_offset(s, at[k] as int);
}

// ---------------------------------------------------------------------
// Rows and items.
// ---------------------------------------------------------------------
/// The history index of a row; `None` where there is no such row, or where the
/// history no longer holds the item that it showed.
pub fn row_to_hist(rows: &Vec<FilterRow>, hist: &Vec<ClipItem>, row: i32) -> (r: Option<usize>)
    ensures
        r is Some == (0 <= row < rows@.len() && rows@[row as int].hist_index < hist@.len()),
        r matches Some(i) ==> i == rows@[row as int].hist_index,
{
    if row < 0 || row as usize >= rows.len() {
        return None;
    }
    let i: usize = rows[row as usize].hist_index;
    if i < hist.len() {
        Some(i)
    } else {
        None
    }
}

/// The row that shows the item at `hist_index`.
pub fn row_of_item(rows: &Vec<FilterRow>, hist_index: usize) -> (r: Option<usize>)
    ensures
        r matches Some(k) ==> k < rows@.len() && rows@[k as int].hist_index == hist_index
            && forall|j: int| 0 <= j < k ==> (#[trigger] rows@[j]).hist_index != hist_index,
        r is None ==> forall|j: int|
            0 <= j < rows@.len() ==> (#[trigger] rows@[j]).hist_index != hist_index,
{
    let mut k: usize = 0;
    while k < rows.len()
        invariant
            k <= rows@.len(),
            forall|j: int| 0 <= j < k ==> (#[trigger] rows@[j]).hist_index != hist_index,
        decreases rows@.len() - k,
    {
        if rows[k].hist_index == hist_index {
            return Some(k);
        }
        k += 1;
    }
    None
}

// ---------------------------------------------------------------------
// Search by the scores of the matcher.
// ---------------------------------------------------------------------
/// For a search the better match stands higher: among pinned items, and among
/// the others, the scores of the matcher never ascend down the list, and of
/// two equally good matches the newer one comes first.
pub proof fn law_better_match_first(
    hist: Seq<ItemView>,
    query: Seq<char>,
    rows: Seq<(usize, Seq<usize>)>,
    j: int,
    k: int,
)
    requires
        are_rows(hist, search_results(hist, query), rows),
        query.len() > 0,
        0 <= j < k < rows.len(),
        hist[rows[j].0 as int].pinned == hist[rows[k].0 as int].pinned,
    ensures
        rows[j].0 < hist.len() && rows[k].0 < hist.len(),
        skim_match(hist[rows[j].0 as int].preview, query) matches Some((sj, _)) && skim_match(
            hist[rows[k].0 as int].preview,
            query,
        ) matches Some((sk, _)) && sj >= sk && (sj == sk ==> rows[j].0 > rows[k].0),
{
    let order = row_order(rows);
    assert(order[j] == rows[j].0 && order[k] == rows[k].0);
    assert(outranks(hist, search_results(hist, query), order[j] as int, order[k] as int));
}

/// For a search the list holds an item exactly where the matcher finds the
/// query in its preview, and marks in it what the matcher found: each mark is
/// the number of bytes in front of the character.
pub proof fn law_matches_are_listed(
    hist: Seq<ItemView>,
    query: Seq<char>,
    rows: Seq<(usize, Seq<usize>)>,
    i: int,
)
    requires
        are_rows(hist, search_results(hist, query), rows),
        query.len() > 0,
        0 <= i < hist.len() <= usize::MAX,
    ensures
        skim_match(hist[i].preview, query) is Some == exists|k: int|
            0 <= k < rows.len() && (#[trigger] rows[k]).0 == i,
        forall|k: int, m: int|
            0 <= k < rows.len() && (#[trigger] rows[k]).0 == i ==> {
                &&& skim_match(hist[i].preview, query) matches Some((_, at))
                &&& rows[k].1.len() == at.len()
                &&& 0 <= m < at.len() && encode_utf8(hist[i].preview.take(at[m] as int)).len()
                    <= usize::MAX ==> (#[trigger] rows[k].1[m]) == encode_utf8(
                    hist[i].preview.take(at[m] as int),
                ).len()
            },
{
    let results = search_results(hist, query);
    let order = row_order(rows);
    assert(results[i] == skim_match(hist[i].preview, query));
    if results[i] is Some {
        assert(order.contains(i as usize));
        let k = choose|k: int| 0 <= k < order.len() && order[k] == i as usize;
        assert(rows[k].0 == i);
    }
    if exists|k: int| 0 <= k < rows.len() && (#[trigger] rows[k]).0 == i {
        let k = choose|k: int| 0 <= k < rows.len() && (#[trigger] rows[k]).0 == i;
        assert(order[k] == i);
    }
    assert forall|k: int|
        0 <= k < rows.len() && (#[trigger] rows[k]).0 == i implies results[i] is Some by {
        assert(order[k] == i);
    }
}

/// Without a search every item is listed once, with no marks: the pinned ones
/// first, and within each group the newest first.
pub proof fn law_all_items_are_listed(
    hist: Seq<ItemView>,
    rows: Seq<(usize, Seq<usize>)>,
    i: int,
    j: int,
)
    requires
        are_rows(hist, search_results(hist, seq![]), rows),
        0 <= i < hist.len() <= usize::MAX,
        0 <= j < hist.len(),
        i != j,
    ensures
        exists|a: int, b: int|
            0 <= a < rows.len() && 0 <= b < rows.len() && (#[trigger] rows[a]).0 == i && (
            #[trigger] rows[b]).0 == j && rows[a].1.len() == 0 && (a < b) == (if hist[i].pinned
                != hist[j].pinned {
                hist[i].pinned
            } else {
                i > j
            }),
{
    let none: Seq<char> = seq![];
    let results = search_results(hist, none);
    let order = row_order(rows);
    assert(results[i] is Some && results[j] is Some);
    assert(order.contains(i as usize) && order.contains(j as usize));
    let a = choose|k: int| 0 <= k < order.len() && order[k] == i as usize;
    let b = choose|k: int| 0 <= k < order.len() && order[k] == j as usize;
    assert(rows[a].0 == i && rows[b].0 == j);
    if a < b {
        assert(outranks(hist, results, order[a] as int, order[b] as int));
    } else {
        assert(a != b);
        assert(outranks(hist, results, order[b] as int, order[a] as int));
    }
    assert(rows[a].1 =~= seq![]);
}

/// The label of an item is the tag of its kind in brackets; code with a known
/// language is labelled by that.
pub proof fn law_labels(lang: Option<Seq<char>>, l: Seq<char>)
    requires
        l.len() > 0,
    ensures
        label_text(ItemType::Text, lang) == "[T]"@,
        label_text(ItemType::Image, lang) == "[I]"@,
        label_text(ItemType::File, lang) == "[F]"@,
        label_text(ItemType::Html, lang) == "[H]"@,
        label_text(ItemType::Spreadsheet, lang) == "[X]"@,
        label_text(ItemType::RichText, lang) == "[R]"@,
        label_text(ItemType::Code, None) == "[C]"@,
        label_text(ItemType::Code, Some(seq![])) == "[C]"@,
        label_text(ItemType::Code, Some(l)) == "[C:"@ + l + "]"@,
{
}

/// An item on one line: its label, its preview and its age, two blanks apart.
pub proof fn law_item_line(item: ItemView, now: u64)
    ensures
        line_text(item, now) == label_text(item.kind, item.lang) + seq![' ', ' '] + item.preview
            + seq![' ', ' '] + age_text(elapsed(now, item.timestamp)),
{
    reveal_strlit("  ");
    assert("  "@ =~= seq![' ', ' ']);
}

/// Among pinned items, and among the others, better results stand higher, and
/// of two equally good ones the newer; each row shows the characters that its
/// result gives, by the number of bytes in front of them.
pub proof fn law_better_result_first(
    hist: Seq<ItemView>,
    results: Seq<Option<(i64, Seq<usize>)>>,
    rows: Seq<(usize, Seq<usize>)>,
    j: int,
    k: int,
    m: int,
)
    requires
        are_rows(hist, results, rows),
        0 <= j < k < rows.len(),
    ensures
        rows[j].0 < hist.len() && rows[k].0 < hist.len(),
        hist[rows[j].0 as int].pinned || !hist[rows[k].0 as int].pinned,
        results[rows[j].0 as int] matches Some((sj, at)) && results[rows[k].0 as int] matches Some(
            (sk, _),
        ) && (hist[rows[j].0 as int].pinned == hist[rows[k].0 as int].pinned ==> sj >= sk && (sj
            == sk ==> rows[j].0 > rows[k].0)) && rows[j].1.len() == at.len() && (0 <= m < at.len()
            && encode_utf8(hist[rows[j].0 as int].preview.take(at[m] as int)).len() <= usize::MAX
            ==> rows[j].1[m] == encode_utf8(
            hist[rows[j].0 as int].preview.take(at[m] as int),
        ).len()),
{
    let order = row_order(rows);
    assert(order[j] == rows[j].0 && order[k] == rows[k].0);
    assert(outranks(hist, results, order[j] as int, order[k] as int));
}

/// Marks are bytes at which characters start, in ascending order.
pub proof fn law_marks(s: Seq<char>, indices: Seq<usize>, k: int)
    requires
        marks_chars(s, indices),
        0 <= k < indices.len(),
    ensures
        exists|i: int| 0 <= i < s.len() && #[trigger] encode_utf8(s.take(i)).len() == indices[k],
        k > 0 ==> indices[k - 1] < indices[k],
{
    assert(starts_char(s, indices[k] as int));
    let i = choose|i: int| 0 <= i < s.len() && #[trigger] byte_offset(s, i) == indices[k];
    assert(encode_utf8(s.take(i)).len() == indices[k]);
}

/// The results of a search are taken as they are.
pub proof fn law_results_are_taken(results: Seq<Option<(i64, Vec<usize>)>>, i: int)
    requires
        0 <= i < results.len(),
    ensures
        result_views(results).len() == results.len(),
        results[i] is None ==> result_views(results)[i] is None,
        results[i] matches Some((score, at)) ==> result_views(results)[i] == Some((score, at@)),
{
}

} // verus!
