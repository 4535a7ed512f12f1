//! The history: what is added, what is dropped, what stays.

use vstd::prelude::*;

use crate::item::{ClipItem, MAX_ITEMS};
use crate::item::{views, ItemView};

verus! {

// ---------------------------------------------------------------------
// Pruning.
// ---------------------------------------------------------------------
/// The index of the oldest item that is not pinned.
pub open spec fn first_unpinned(s: Seq<ItemView>) -> Option<int>
    decreases s.len(),
{
    if s.len() == 0 {
        None
    } else if !s[0].pinned {
        Some(0)
    } else {
        match first_unpinned(s.skip(1)) {
            Some(i) => Some(i + 1),
            None => None,
        }
    }
}

/// The index of the oldest item that is not pinned, is one.
pub proof fn lemma_first_unpinned(s: Seq<ItemView>)
    ensures
        first_unpinned(s) matches Some(i) ==> 0 <= i < s.len() && !s[i].pinned && forall|j: int|
            0 <= j < i ==> #[trigger] s[j].pinned,
        first_unpinned(s) is None ==> forall|j: int| 0 <= j < s.len() ==> #[trigger] s[j].pinned,
    decreases s.len(),
{
    if s.len() > 0 && s[0].pinned {
        lemma_first_unpinned(s.skip(1));
        assert forall|j: int| 1 <= j < s.len() implies s[j] == #[trigger] s.skip(1)[j - 1] by {}
        if first_unpinned(s) is None {
            assert forall|j: int| 0 <= j < s.len() implies #[trigger] s[j].pinned by {
                if j > 0 {
                    assert(s.skip(1)[j - 1].pinned);
                }
            }
        } else {
            let i = first_unpinned(s)->0;
            assert forall|j: int| 0 <= j < i implies #[trigger] s[j].pinned by {
                if j > 0 {
                    assert(s.skip(1)[j - 1].pinned);
                }
            }
        }
    }
}

/// What is left of the history once the oldest items that are not pinned have
/// been dropped down to the limit.
pub open spec fn pruned(s: Seq<ItemView>) -> Seq<ItemView>
    decreases s.len(),
{
    proof {
        lemma_first_unpinned(s);
    }
    if s.len() > MAX_ITEMS && first_unpinned(s) is Some {
        pruned(s.remove(first_unpinned(s)->0))
    } else {
        s
    }
}

/// What is dropped, oldest first.
pub open spec fn evicted(s: Seq<ItemView>) -> Seq<ItemView>
    decreases s.len(),
{
    proof {
        lemma_first_unpinned(s);
    }
    if s.len() > MAX_ITEMS && first_unpinned(s) is Some {
        seq![s[first_unpinned(s)->0]] + evicted(s.remove(first_unpinned(s)->0))
    } else {
        seq![]
    }
}

/// The index of the oldest item that is not pinned.
fn find_unpinned(items: &Vec<ClipItem>) -> (r: Option<usize>)
    ensures
        r is Some == first_unpinned(views(items@)) is Some,
        r matches Some(i) ==> first_unpinned(views(items@)) == Some(i as int),
{
    let mut i: usize = 0;
    proof {
        lemma_first_unpinned(views(items@));
    }
    while i < items.len()
        invariant
            i <= items@.len(),
            forall|j: int| 0 <= j < i ==> (#[trigger] views(items@)[j]).pinned,
        decreases items@.len() - i,
    {
        assert(views(items@)[i as int] == items@[i as int]@);
        if !items[i].pinned {
            proof {
                let vs = views(items@);
                lemma_first_unpinned(vs);
                assert(!vs[i as int].pinned);
                let k = first_unpinned(vs)->0;
                if k < i {
                    assert(vs[k].pinned);
                }
            }
            return Some(i);
        }
        i += 1;
    }
    proof {
        lemma_first_unpinned(views(items@));
    }
    None
}

/// Drops the oldest items that are not pinned until no more than the limit are
/// left. Pinned items stay even above it. Returns what was dropped, oldest
/// first.
pub fn prune_history(items: &mut Vec<ClipItem>) -> (r: Vec<ClipItem>)
    ensures
        views(final(items)@) == pruned(views(old(items)@)),
        views(r@) == evicted(views(old(items)@)),
{
    let mut dropped: Vec<ClipItem> = Vec::new();
    let ghost before = views(items@);
    assert(views(dropped@) + evicted(before) =~= evicted(before));
    while items.len() > MAX_ITEMS
        invariant_except_break
            pruned(views(items@)) == pruned(before),
            views(dropped@) + evicted(views(items@)) == evicted(before),
        ensures
            views(items@) == pruned(before),
            views(dropped@) == evicted(before),
        decreases items@.len(),
    {
        match find_unpinned(items) {
            None => {
                assert(views(dropped@) + evicted(views(items@)) =~= views(dropped@));
                break;
            },
            Some(i) => {
                let ghost now = views(items@);
                let ghost so_far = views(dropped@);
                proof {
                    lemma_first_unpinned(now);
                }
                let item = items.remove(i);
                assert(views(items@) =~= now.remove(i as int));
                assert(item@ == now[i as int]);
                dropped.push(item);
                assert(views(dropped@) =~= so_far.push(now[i as int]));
                assert(so_far.push(now[i as int]) + evicted(views(items@)) =~= so_far + (
                seq![now[i as int]] + evicted(views(items@))));
            },
        }
        if items.len() <= MAX_ITEMS {
            assert(views(dropped@) + evicted(views(items@)) =~= views(dropped@));
        }
    }
    dropped
}

/// The items of `s` that are pinned, or that are not, in order.
pub open spec fn select(s: Seq<ItemView>, pinned: bool) -> Seq<ItemView>
    decreases s.len(),
{
    if s.len() == 0 {
        seq![]
    } else if s[0].pinned == pinned {
        seq![s[0]] + select(s.skip(1), pinned)
    } else {
        select(s.skip(1), pinned)
    }
}

/// Taking out the oldest item that is not pinned leaves the pinned ones as
/// they are, and takes the first of the others.
proof fn lemma_select_remove(s: Seq<ItemView>)
    requires
        first_unpinned(s) is Some,
    ensures
        ({
            let i = first_unpinned(s)->0;
            &&& 0 <= i < s.len()
            &&& select(s.remove(i), true) == select(s, true)
            &&& select(s, false) == seq![s[i]] + select(s.remove(i), false)
        }),
    decreases s.len(),
{
    lemma_first_unpinned(s);
    let i = first_unpinned(s)->0;
    if i == 0 {
        assert(s.remove(0) =~= s.skip(1));
    } else {
        let t = s.skip(1);
        lemma_select_remove(t);
        assert(s.remove(i).skip(1) =~= t.remove(i - 1));
        assert(s.remove(i)[0] == s[0]);
        assert(t[i - 1] == s[i]);
    }
}

/// Pruning never drops or reorders a pinned item.
pub proof fn law_pruning_keeps_pinned(s: Seq<ItemView>)
    ensures
        select(pruned(s), true) == select(s, true),
        forall|k: int| 0 <= k < evicted(s).len() ==> !(#[trigger] evicted(s)[k]).pinned,
    decreases s.len(),
{
    lemma_first_unpinned(s);
    if s.len() > MAX_ITEMS && first_unpinned(s) is Some {
        let i = first_unpinned(s)->0;
        let t = s.remove(i);
        lemma_select_remove(s);
        law_pruning_keeps_pinned(t);
        assert forall|k: int| 0 <= k < evicted(s).len() implies !(
        #[trigger] evicted(s)[k]).pinned by {
            if k > 0 {
                assert(evicted(s)[k] == evicted(t)[k - 1]);
            }
        }
    }
}

/// What is dropped are the oldest of the items that are not pinned; the rest
/// of those stay, in order.
pub proof fn law_pruning_drops_oldest(s: Seq<ItemView>)
    ensures
        select(s, false) == evicted(s) + select(pruned(s), false),
    decreases s.len(),
{
    lemma_first_unpinned(s);
    if s.len() > MAX_ITEMS && first_unpinned(s) is Some {
        let i = first_unpinned(s)->0;
        let t = s.remove(i);
        lemma_select_remove(s);
        law_pruning_drops_oldest(t);
        assert(evicted(s) + select(pruned(s), false) =~= seq![s[i]] + (evicted(t) + select(
            pruned(t),
            false,
        )));
    } else {
        assert(evicted(s) + select(pruned(s), false) =~= select(s, false));
    }
}

/// After pruning the history is within the limit, or all of it is pinned; and
/// nothing is dropped from a history that is within the limit.
pub proof fn law_pruning_reaches_limit(s: Seq<ItemView>)
    ensures
        pruned(s).len() <= MAX_ITEMS || select(pruned(s), false).len() == 0,
        s.len() <= MAX_ITEMS ==> pruned(s) == s,
        pruned(s).len() + evicted(s).len() == s.len(),
        pruned(s).len() < s.len() ==> pruned(s).len() >= MAX_ITEMS,
    decreases s.len(),
{
    lemma_first_unpinned(s);
    if s.len() > MAX_ITEMS && first_unpinned(s) is Some {
        law_pruning_reaches_limit(s.remove(first_unpinned(s)->0));
    } else if s.len() > MAX_ITEMS {
        lemma_all_pinned(s);
    }
}

proof fn lemma_all_pinned(s: Seq<ItemView>)
    requires
        forall|j: int| 0 <= j < s.len() ==> #[trigger] s[j].pinned,
    ensures
        select(s, false).len() == 0,
    decreases s.len(),
{
    if s.len() > 0 {
        assert(s[0].pinned);
        assert forall|j: int| 0 <= j < s.skip(1).len() implies #[trigger] s.skip(1)[j].pinned by {
            assert(s[j + 1].pinned);
        }
        lemma_all_pinned(s.skip(1));
    }
}

// ---------------------------------------------------------------------
// Adding, pinning, deleting.
// ---------------------------------------------------------------------
/// Whether `item` repeats the newest item of the history.
pub open spec fn is_repeat(s: Seq<ItemView>, item: ItemView) -> bool {
    s.len() > 0 && s.last().kind == item.kind && s.last().content_hash == item.content_hash
}

/// Whether `item` stays in the history when it is put at its end: it does not
/// where pinned items alone reach the limit and it is not pinned itself.
pub open spec fn is_kept(s: Seq<ItemView>, item: ItemView) -> bool {
    pruned(s.push(item)).contains(item)
}

/// Adds a captured item and prunes the history, unless the item repeats the
/// newest one or would be dropped at once. Returns what was dropped, or `None`
/// where the item was not added.
pub fn push_item(items: &mut Vec<ClipItem>, item: ClipItem) -> (r: Option<Vec<ClipItem>>)
    ensures
        r is None == (is_repeat(views(old(items)@), item@) || !is_kept(views(old(items)@), item@)),
        r is None ==> final(items)@ == old(items)@,
        r matches Some(dropped) ==> {
            let all = views(old(items)@).push(item@);
            &&& views(final(items)@) == pruned(all)
            &&& views(dropped@) == evicted(all)
        },
        (old(items)@.len() == 0 || old(items)@.last().kind != item.kind
            || old(items)@.last().content_hash != item.content_hash) && views(old(items)@).filter(
            |c: ItemView| c.pinned,
        ).len() < 200 ==> r is Some && final(items)@.len() > 0 && final(items)@.last()@ == item@,
{
    let ghost before = views(items@);
    if items.len() > 0 {
        let last: &ClipItem = &items[items.len() - 1];
        assert(before.last() == last@);
        if last.kind == item.kind && last.content_hash == item.content_hash {
            return None;
        }
    }
    let ghost added = item@;
    proof {
        lemma_is_kept(before, added);
        lemma_select_is_filter(before);
    }
    if !item.pinned && pinned_count(items) >= MAX_ITEMS {
        return None;
    }
    items.push(item);
    assert(views(items@) =~= before.push(added));
    let dropped = prune_history(items);
    proof {
        if before.filter(|c: ItemView| c.pinned).len() < 200 {
            law_new_content_is_added(before, added);
            assert(views(items@).last() == items@.last()@);
        }
    }
    Some(dropped)
}

/// A new item is dropped at once where it is not pinned and the pinned items
/// alone reach the limit, and only there.
proof fn lemma_is_kept(s: Seq<ItemView>, item: ItemView)
    ensures
        is_kept(s, item) == (item.pinned || select(s, true).len() < MAX_ITEMS),
{
    let all = s.push(item);
    let left = pruned(all);
    assert(all.drop_last() =~= s);
    lemma_select_both(s);
    if item.pinned || select(s, true).len() < MAX_ITEMS {
        law_pruning_keeps_newest(all);
        assert(left.contains(left.last()));
    } else {
        law_pruning_reaches_limit(all);
        law_pruning_keeps_pinned(all);
        lemma_select_push(s, item, true);
        lemma_select_both(left);
        if left.contains(item) {
            lemma_select_contains(left, item);
        }
    }
}

/// Every item is pinned or is not.
proof fn lemma_select_both(s: Seq<ItemView>)
    ensures
        select(s, true).len() + select(s, false).len() == s.len(),
    decreases s.len(),
{
    if s.len() > 0 {
        lemma_select_both(s.skip(1));
    }
}

/// An item at the end is selected last, or not at all.
proof fn lemma_select_push(s: Seq<ItemView>, item: ItemView, pinned: bool)
    ensures
        select(s.push(item), pinned) == if item.pinned == pinned {
            select(s, pinned).push(item)
        } else {
            select(s, pinned)
        },
    decreases s.len(),
{
    let all = s.push(item);
    if s.len() == 0 {
        assert(all.skip(1) =~= s);
        assert(select(all.skip(1), pinned) =~= seq![]);
        assert(select(all, pinned) =~= if item.pinned == pinned {
            select(s, pinned).push(item)
        } else {
            select(s, pinned)
        });
    } else {
        assert(all.skip(1) =~= s.skip(1).push(item));
        assert(all[0] == s[0]);
        lemma_select_push(s.skip(1), item, pinned);
        assert(select(all, pinned) =~= if item.pinned == pinned {
            select(s, pinned).push(item)
        } else {
            select(s, pinned)
        });
    }
}

/// An item is among those that are pinned, or among those that are not.
proof fn lemma_select_contains(s: Seq<ItemView>, item: ItemView)
    requires
        s.contains(item),
    ensures
        select(s, item.pinned).len() > 0,
    decreases s.len(),
{
    let k = choose|k: int| 0 <= k < s.len() && s[k] == item;
    if k > 0 {
        assert(s.skip(1)[k - 1] == item);
        lemma_select_contains(s.skip(1), item);
    }
}

/// An item with an id of its own is added exactly where the history holds that
/// id afterwards, and every item that was pinned is still there.
pub proof fn law_added_item_is_there(s: Seq<ItemView>, item: ItemView)
    requires
        forall|i: int| 0 <= i < s.len() ==> (#[trigger] s[i]).id != item.id,
    ensures
        is_kept(s, item) <==> exists|i: int|
            0 <= i < pruned(s.push(item)).len() && (#[trigger] pruned(s.push(item))[i]).id
                == item.id,
        forall|i: int|
            0 <= i < s.len() && (#[trigger] s[i]).pinned ==> pruned(s.push(item)).contains(s[i]),
{
    let all = s.push(item);
    let left = pruned(all);
    if left.contains(item) {
        let k = choose|k: int| 0 <= k < left.len() && left[k] == item;
        assert(left[k].id == item.id);
    }
    lemma_pruned_is_part(all);
    assert forall|i: int| 0 <= i < left.len() && (#[trigger] left[i]).id == item.id implies is_kept(
        s,
        item,
    ) by {
        assert(all.contains(left[i]));
        let k = choose|k: int| 0 <= k < all.len() && all[k] == left[i];
        if k < s.len() {
            assert(s[k] == all[k]);
        }
        assert(left[i] == item);
    }
    assert forall|i: int| 0 <= i < s.len() && (#[trigger] s[i]).pinned implies left.contains(
        s[i],
    ) by {
        assert(all[i] == s[i]);
        lemma_pinned_stays(all, i);
    }
}

/// A pinned item is still there after pruning.
proof fn lemma_pinned_stays(s: Seq<ItemView>, i: int)
    requires
        0 <= i < s.len(),
        s[i].pinned,
    ensures
        pruned(s).contains(s[i]),
    decreases s.len(),
{
    lemma_first_unpinned(s);
    if s.len() > MAX_ITEMS && first_unpinned(s) is Some {
        let k = first_unpinned(s)->0;
        let t = s.remove(k);
        let to = if i < k {
            i
        } else {
            i - 1
        };
        assert(t[to] == s[i]);
        lemma_pinned_stays(t, to);
    }
}

/// What is left by pruning was there before.
pub proof fn lemma_pruned_is_part(s: Seq<ItemView>)
    ensures
        forall|i: int| 0 <= i < pruned(s).len() ==> s.contains(#[trigger] pruned(s)[i]),
    decreases s.len(),
{
    lemma_first_unpinned(s);
    if s.len() > MAX_ITEMS && first_unpinned(s) is Some {
        let k = first_unpinned(s)->0;
        let t = s.remove(k);
        lemma_pruned_is_part(t);
        assert forall|i: int| 0 <= i < pruned(s).len() implies s.contains(
            #[trigger] pruned(s)[i],
        ) by {
            assert(t.contains(pruned(t)[i]));
            let j = choose|j: int| 0 <= j < t.len() && t[j] == pruned(t)[i];
            let from = if j < k {
                j
            } else {
                j + 1
            };
            assert(s[from] == t[j]);
        }
    }
}

/// The oldest item that is not pinned is where the search says it is.
proof fn lemma_first_unpinned_is(s: Seq<ItemView>, i: int)
    requires
        0 <= i < s.len(),
        !s[i].pinned,
        forall|j: int| 0 <= j < i ==> #[trigger] s[j].pinned,
    ensures
        first_unpinned(s) == Some(i),
{
    lemma_first_unpinned(s);
    if first_unpinned(s) is None {
        assert(s[i].pinned);
    } else {
        let k = first_unpinned(s)->0;
        if k < i {
            assert(s[k].pinned);
        } else if i < k {
            assert(s[i].pinned);
        }
    }
}

/// Pruning keeps the newest item as long as enough older ones can go.
pub proof fn law_pruning_keeps_newest(s: Seq<ItemView>)
    requires
        s.len() > 0,
        s.last().pinned || s.len() <= MAX_ITEMS + select(s.drop_last(), false).len(),
    ensures
        pruned(s).len() > 0,
        pruned(s).last() == s.last(),
    decreases s.len(),
{
    lemma_first_unpinned(s);
    if s.len() > MAX_ITEMS && first_unpinned(s) is Some {
        let i = first_unpinned(s)->0;
        let older = s.drop_last();
        if i == s.len() - 1 {
            assert forall|j: int| 0 <= j < older.len() implies #[trigger] older[j].pinned by {
                assert(s[j].pinned);
            }
            lemma_all_pinned(older);
        } else {
            assert forall|j: int| 0 <= j < i implies #[trigger] older[j].pinned by {
                assert(s[j].pinned);
            }
            lemma_first_unpinned_is(older, i);
            lemma_select_remove(older);
            assert(s.remove(i).drop_last() =~= older.remove(i));
            law_pruning_keeps_newest(s.remove(i));
        }
    }
}

/// Capturing the same content twice in a row adds it once.
pub proof fn law_repeat_is_ignored(s: Seq<ItemView>, a: ItemView, b: ItemView)
    requires
        is_kept(s, a),
        a.kind == b.kind,
        a.content_hash == b.content_hash,
    ensures
        is_repeat(pruned(s.push(a)), b),
{
    assert(s.push(a).drop_last() =~= s);
    lemma_is_kept(s, a);
    lemma_select_both(s);
    law_pruning_keeps_newest(s.push(a));
}

/// `s` with the pin of item `i` flipped.
pub open spec fn with_pin_toggled(s: Seq<ItemView>, i: int) -> Seq<ItemView> {
    s.update(i, ItemView { pinned: !s[i].pinned, ..s[i] })
}

/// Flips the pin of the item at `i`, if there is one. Returns whether there is.
pub fn toggle_pin(items: &mut Vec<ClipItem>, i: usize) -> (r: bool)
    ensures
        r == (i < old(items)@.len()),
        r ==> views(final(items)@) == with_pin_toggled(views(old(items)@), i as int),
        !r ==> final(items)@ == old(items)@,
{
    if i >= items.len() {
        return false;
    }
    let ghost before = views(items@);
    let flipped = !items[i].pinned;
    assert(before[i as int] == items@[i as int]@);
    items[i].pinned = flipped;
    assert(views(items@) =~= with_pin_toggled(before, i as int));
    true
}

/// Flipping the pin of an item twice changes nothing.
pub proof fn law_toggle_undoes_itself(s: Seq<ItemView>, i: int)
    requires
        0 <= i < s.len(),
    ensures
        with_pin_toggled(with_pin_toggled(s, i), i) == s,
{
    assert(with_pin_toggled(with_pin_toggled(s, i), i) =~= s);
}

/// Takes the item at `i` out of the history, if there is one.
pub fn delete_item(items: &mut Vec<ClipItem>, i: usize) -> (r: Option<ClipItem>)
    ensures
        r is Some == (i < old(items)@.len()),
        r matches Some(item) ==> {
            &&& item@ == views(old(items)@)[i as int]
            &&& views(final(items)@) == views(old(items)@).remove(i as int)
        },
        r is None ==> final(items)@ == old(items)@,
{
    if i >= items.len() {
        return None;
    }
    let ghost before = views(items@);
    let item = items.remove(i);
    assert(views(items@) =~= before.remove(i as int));
    Some(item)
}

/// Takes every item out of the history, pinned ones included.
pub fn clear_items(items: &mut Vec<ClipItem>)
    ensures
        final(items)@.len() == 0,
{
    items.clear();
}

/// The number of pinned items.
pub fn pinned_count(items: &Vec<ClipItem>) -> (r: usize)
    ensures
        r == select(views(items@), true).len(),
{
    let mut n: usize = 0;
    let mut i: usize = items.len();
    assert(views(items@).skip(items@.len() as int) =~= seq![]);
    while i > 0
        invariant
            i <= items@.len(),
            n + i <= items.len(),
            n == select(views(items@).skip(i as int), true).len(),
        decreases i,
    {
        i -= 1;
        let ghost rest = views(items@).skip(i as int);
        assert(rest.skip(1) =~= views(items@).skip(i + 1));
        assert(rest[0] == items@[i as int]@);
        if items[i].pinned {
            n += 1;
        }
    }
    assert(views(items@).skip(0) =~= views(items@));
    n
}

/// Whether an item of the history has the given id.
pub fn holds_id(items: &Vec<ClipItem>, id: u64) -> (r: bool)
    ensures
        r == exists|i: int| 0 <= i < items@.len() && (#[trigger] items@[i]).id == id,
{
    let mut i: usize = 0;
    while i < items.len()
        invariant
            i <= items@.len(),
            forall|k: int| 0 <= k < i ==> (#[trigger] items@[k]).id != id,
        decreases items@.len() - i,
    {
        if items[i].id == id {
            return true;
        }
        i += 1;
    }
    false
}

/// The names of the files that back an item: those that are deleted with it.
pub open spec fn media_names(item: ItemView) -> Seq<Seq<char>> {
    let full: Seq<Seq<char>> = match item.media_file {
        Some(name) => seq![name],
        None => seq![],
    };
    let thumb: Seq<Seq<char>> = match item.thumb_file {
        Some(name) => seq![name],
        None => seq![],
    };
    full + thumb
}

/// The names of the files that back an item.
pub fn media_of(item: &ClipItem) -> (r: Vec<String>)
    ensures
        r@.map_values(|s: String| s@) == media_names(item@),
{
    let mut out: Vec<String> = Vec::new();
    if let Some(name) = &item.media_file {
        out.push(name.clone());
    }
    if let Some(name) = &item.thumb_file {
        out.push(name.clone());
    }
    assert(out@.map_values(|s: String| s@) =~= media_names(item@));
    out
}

// ---------------------------------------------------------------------
// The history in terms of its items.
// ---------------------------------------------------------------------
/// Selecting the pinned items, or the others, is filtering by the pin.
proof fn lemma_select_is_filter(s: Seq<ItemView>)
    ensures
        select(s, true) == s.filter(|c: ItemView| c.pinned),
        select(s, false) == s.filter(|c: ItemView| !c.pinned),
    decreases s.len(),
{
    reveal(Seq::filter);
    if s.len() > 0 {
        let t = s.drop_last();
        lemma_select_is_filter(t);
        assert(t.push(s.last()) =~= s);
        lemma_select_push(t, s.last(), true);
        lemma_select_push(t, s.last(), false);
    }
}

/// Content that differs from the newest item, in its kind or in its
/// fingerprint, is added at the end of the history as long as fewer than 200
/// items are pinned, whatever else the two have in common.
pub proof fn law_new_content_is_added(s: Seq<ItemView>, item: ItemView)
    requires
        s.len() == 0 || s.last().kind != item.kind || s.last().content_hash != item.content_hash,
        s.filter(|c: ItemView| c.pinned).len() < 200,
    ensures
        !is_repeat(s, item),
        is_kept(s, item),
        pruned(s.push(item)).len() > 0,
        pruned(s.push(item)).last() == item,
{
    lemma_select_is_filter(s);
    lemma_is_kept(s, item);
    lemma_select_both(s);
    assert(s.push(item).drop_last() =~= s);
    law_pruning_keeps_newest(s.push(item));
}

/// The same content again, in kind and fingerprint, is never added, and neither
/// is an item that is not pinned where 200 items are.
pub proof fn law_repeats_are_not_added(s: Seq<ItemView>, item: ItemView)
    ensures
        s.len() > 0 && s.last().kind == item.kind && s.last().content_hash == item.content_hash
            ==> is_repeat(s, item),
        !item.pinned && s.filter(|c: ItemView| c.pinned).len() >= 200 ==> !is_kept(s, item),
        item.pinned ==> is_kept(s, item),
{
    lemma_select_is_filter(s);
    lemma_is_kept(s, item);
}

/// A history of up to 200 items is left alone. A longer one loses its oldest
/// item that is not pinned, again and again, and nothing where all are pinned.
pub proof fn law_oldest_unpinned_go_first(s: Seq<ItemView>, i: int)
    ensures
        s.len() <= 200 ==> pruned(s) == s && evicted(s) == Seq::<ItemView>::empty(),
        (forall|j: int| 0 <= j < s.len() ==> #[trigger] s[j].pinned) ==> pruned(s) == s
            && evicted(s) == Seq::<ItemView>::empty(),
        s.len() > 200 && 0 <= i < s.len() && !s[i].pinned && (forall|j: int|
            0 <= j < i ==> #[trigger] s[j].pinned) ==> pruned(s) == pruned(s.remove(i)) && evicted(
            s,
        ) == seq![s[i]] + evicted(s.remove(i)),
{
    lemma_first_unpinned(s);
    if s.len() > 200 && 0 <= i < s.len() && !s[i].pinned && (forall|j: int|
        0 <= j < i ==> #[trigger] s[j].pinned) {
        lemma_first_unpinned_is(s, i);
    }
    if forall|j: int| 0 <= j < s.len() ==> #[trigger] s[j].pinned {
        if first_unpinned(s) is Some {
            assert(s[first_unpinned(s)->0].pinned);
        }
    }
}

/// Pruning keeps every pinned item in its place among the pinned ones; of the
/// others, those that go are the oldest; and 200 items are left, or as many as
/// are pinned where that is more.
pub proof fn law_pruning_by_pin(s: Seq<ItemView>)
    ensures
        pruned(s).filter(|c: ItemView| c.pinned) == s.filter(|c: ItemView| c.pinned),
        s.filter(|c: ItemView| !c.pinned) == evicted(s) + pruned(s).filter(
            |c: ItemView| !c.pinned,
        ),
        s.len() > 200 ==> pruned(s).len() == if s.filter(|c: ItemView| c.pinned).len() > 200 {
            s.filter(|c: ItemView| c.pinned).len()
        } else {
            200
        },
{
    lemma_select_is_filter(s);
    lemma_select_is_filter(pruned(s));
    law_pruning_keeps_pinned(s);
    law_pruning_drops_oldest(s);
    law_pruning_reaches_limit(s);
    lemma_select_both(s);
    lemma_select_both(pruned(s));
}

/// Flipping a pin changes the pin of that item and nothing else.
pub proof fn law_toggle_changes_one_pin(s: Seq<ItemView>, i: int, j: int)
    requires
        0 <= i < s.len(),
        0 <= j < s.len(),
    ensures
        with_pin_toggled(s, i).len() == s.len(),
        with_pin_toggled(s, i)[j].pinned == (s[j].pinned != (i == j)),
        i != j ==> with_pin_toggled(s, i)[j] == s[j],
        (ItemView { pinned: s[j].pinned, ..with_pin_toggled(s, i)[j] }) == s[j],
{
}

/// The files of an item are its image and its thumbnail, in that order, as far
/// as it has them.
pub proof fn law_media_names(item: ItemView, full: Seq<char>, thumb: Seq<char>)
    ensures
        item.media_file == Some(full) && item.thumb_file == Some(thumb) ==> media_names(item)
            == seq![full, thumb],
        item.media_file == Some(full) && item.thumb_file is None ==> media_names(item) == seq![
            full,
        ],
        item.media_file is None && item.thumb_file == Some(thumb) ==> media_names(item) == seq![
            thumb,
        ],
        item.media_file is None && item.thumb_file is None ==> media_names(item) == Seq::<
            Seq<char>,
        >::empty(),
{
    assert(item.media_file == Some(full) && item.thumb_file == Some(thumb) ==> media_names(item)
        =~= seq![full, thumb]);
    assert(item.media_file == Some(full) && item.thumb_file is None ==> media_names(item)
        =~= seq![full]);
    assert(item.media_file is None && item.thumb_file == Some(thumb) ==> media_names(item)
        =~= seq![thumb]);
    assert(item.media_file is None && item.thumb_file is None ==> media_names(item) =~= Seq::<
        Seq<char>,
    >::empty());
}

} // verus!
