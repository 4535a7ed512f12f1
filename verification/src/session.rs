//! The running program: the history, the search and the list that shows it.

use vstd::prelude::*;

use crate::filter::{row_of_item, row_to_hist, update_filter};
use crate::filter::{are_rows, marks_chars, row_order, search_results};
use crate::fuzzy::{fuzzy_matches, match_fits};
use crate::history::{clear_items, delete_item, push_item, toggle_pin};
use crate::history::{evicted, is_kept, is_repeat, pruned, with_pin_toggled};
use crate::item::{ClipItem, FilterRow};
use crate::item::ItemType;
use crate::item::{row_views, views, ItemView};
use crate::list::{row_top, same_state, ListView, MAX_ROWS};
use crate::text::trim;

verus! {

/// The history with the rows that the list shows of it.
#[derive(Clone, Debug)]
pub struct Session {
    pub hist: Vec<ClipItem>,
    /// The id of the next item.
    pub next_id: u64,
    /// What is searched for.
    pub query: String,
    pub rows: Vec<FilterRow>,
    pub list: ListView,
}

/// Whether a preview of `n` characters can be searched for a query. Nothing is
/// asked of it where there is nothing to search for.
pub open spec fn can_search(n: nat, query: Seq<char>) -> bool {
    trim(query).len() > 0 ==> match_fits(n, trim(query).len())
}

/// Whether every preview of a history can be searched for a query.
pub open spec fn searchable(hist: Seq<ItemView>, query: Seq<char>) -> bool {
    forall|i: int| 0 <= i < hist.len() ==> can_search((#[trigger] hist[i]).preview.len(), query)
}

/// Whether an item is shown for a query.
pub open spec fn is_found(item: ItemView, query: Seq<char>) -> bool {
    trim(query).len() == 0 || fuzzy_matches(item.preview, trim(query))
}

/// Where a list is scrolled to, where it is moving to, and whether it moves.
pub open spec fn scroll_of(list: ListView) -> (int, int, bool) {
    (list.scroll_y as int, list.target as int, list.animating)
}

/// The scrolling of a list that was laid out anew: as it was, within the range
/// that there is now.
pub open spec fn relaid(list: ListView, before: ListView) -> (int, int, bool) {
    (
        list.clamped(before.scroll_y as int),
        list.clamped(before.target as int),
        before.animating,
    )
}

/// The scrolling once a row is brought into view with the least movement,
/// which ends any other.
pub open spec fn showing(list: ListView, from: (int, int, bool), row: int) -> (int, int, bool) {
    let y = if list.tops@[row] < from.0 {
        list.tops@[row] as int
    } else if list.tops@[row + 1] > from.0 + list.view_h {
        list.tops@[row + 1] - list.view_h
    } else {
        from.0
    };
    if y == from.0 {
        from
    } else {
        (y, y, false)
    }
}

/// The scrolling of a list that was laid out anew and shows its first row.
pub open spec fn first_shown(list: ListView, before: ListView) -> (int, int, bool) {
    if list.rows() > 0 {
        showing(list, relaid(list, before), 0)
    } else {
        relaid(list, before)
    }
}

impl Session {
    /// The history as mathematical values.
    pub open spec fn items(&self) -> Seq<ItemView> {
        views(self.hist@)
    }

    /// Whether the rows are those of the history for the query, and the list
    /// lays out these rows.
    pub open spec fn in_step(&self) -> bool {
        &&& are_rows(
            self.items(),
            search_results(self.items(), trim(self.query@)),
            row_views(self.rows@),
        )
        &&& forall|k: int|
            0 <= k < self.rows@.len() ==> marks_chars(
                self.items()[(#[trigger] self.rows@[k]).hist_index as int].preview,
                self.rows@[k].indices@,
            )
        &&& self.list.rows() == self.rows@.len()
        &&& forall|k: int|
            0 <= k <= self.rows@.len() ==> #[trigger] self.list.tops@[k] == row_top(
                self.hist@,
                self.rows@,
                k,
            )
        &&& forall|i: int|
            #![trigger row_order(row_views(self.rows@)).contains(i as usize)]
            0 <= i < self.hist@.len() ==> row_order(row_views(self.rows@)).contains(i as usize)
                == is_found(self.items()[i], self.query@)
    }

    /// The invariant of the program: the list shows what the history holds,
    /// and every id is below the next one.
    pub open spec fn wf(&self) -> bool {
        &&& self.list.wf()
        &&& self.in_step()
        &&& self.ready()
    }

    /// Whether the history can be searched and laid out.
    pub open spec fn ready(&self) -> bool {
        &&& self.hist@.len() <= MAX_ROWS
        &&& searchable(self.items(), self.query@)
        &&& self.next_id > 0
        &&& forall|i: int|
            0 <= i < self.hist@.len() ==> (#[trigger] self.items()[i]).id < self.next_id
    }

    /// Whether the first row is selected, or no row where there is none, and the
    /// list `before` was moved only as far as showing it takes.
    pub open spec fn at_first_row(&self, before: ListView) -> bool {
        &&& self.list.sel == if self.rows@.len() > 0 {
            0int
        } else {
            -1
        }
        &&& self.list.view_h == before.view_h
        &&& scroll_of(self.list) == first_shown(self.list, before)
    }

    /// Searches anew, lays the list out and selects its first row.
    fn refresh(&mut self)
        requires
            old(self).ready(),
            old(self).list.wf(),
        ensures
            final(self).wf(),
            final(self).hist@ == old(self).hist@,
            final(self).next_id == old(self).next_id,
            final(self).query@ == old(self).query@,
            final(self).at_first_row(old(self).list),
    {
        let ghost items = self.items();
        let ghost q = trim(self.query@);
        assert forall|i: int| 0 <= i < self.hist@.len() implies can_search(
            (#[trigger] self.hist@[i]).preview@.len(),
            self.query@,
        ) by {
            assert(items[i].preview == self.hist@[i].preview@);
        }
        self.rows = update_filter(&self.hist, self.query.as_str());
        proof {
            lemma_rows_bounded(items, search_results(items, q), row_views(self.rows@));
            assert forall|i: int|
                #![trigger row_order(row_views(self.rows@)).contains(i as usize)]
                0 <= i < self.hist@.len() implies row_order(row_views(self.rows@)).contains(
                i as usize,
            ) == is_found(self.items()[i], self.query@) by {
                assert(items[i].preview == self.hist@[i].preview@);
            }
        }
        self.list.list_rebuild(&self.hist, &self.rows);
        if self.rows.len() > 0 {
            self.list.list_set_sel(0);
        }
    }

    /// The program with a loaded history.
    pub fn start(hist: Vec<ClipItem>, next_id: u64) -> (r: Session)
        requires
            hist@.len() <= MAX_ROWS,
            next_id > 0,
            forall|i: int|
                0 <= i < hist@.len() ==> (#[trigger] views(hist@)[i]).id < next_id,
        ensures
            r.wf(),
            r.items() == views(hist@),
            r.next_id == next_id,
            r.query@.len() == 0,
            r.list.sel == if hist@.len() > 0 {
                0int
            } else {
                -1
            },
            r.list.view_h == 0,
            scroll_of(r.list) == if hist@.len() > 0 {
                showing(r.list, (0, 0, false), 0)
            } else {
                (0, 0, false)
            },
    {
        let query = String::new();
        assert(query@ =~= seq![]);
        let mut s = Session { hist, next_id, query, rows: Vec::new(), list: ListView::new() };
        s.refresh();
        proof {
            let items = s.items();
            let rows = row_views(s.rows@);
            lemma_rows_bounded(items, search_results(items, trim(s.query@)), rows);
            if items.len() > 0 {
                assert(is_found(items[0], s.query@));
                assert(row_order(rows).contains(0int as usize));
            }
        }
        s
    }

    /// Searches for something else.
    pub fn set_query(&mut self, query: &str)
        requires
            old(self).wf(),
            searchable(old(self).items(), query@),
        ensures
            final(self).wf(),
            final(self).query@ == query@,
            final(self).items() == old(self).items(),
            final(self).next_id == old(self).next_id,
            final(self).at_first_row(old(self).list),
    {
        self.query = query.to_owned();
        self.refresh();
    }

    /// Adds a captured item that carries the next id. Returns what was dropped
    /// for it, or `None` where it was not added: where it repeats the newest
    /// item, or pinned items leave no room for it. The id is used up either
    /// way.
    pub fn add(&mut self, item: ClipItem) -> (r: Option<Vec<ClipItem>>)
        requires
            old(self).wf(),
            old(self).hist@.len() < MAX_ROWS,
            old(self).next_id < u64::MAX,
            item.id == old(self).next_id,
            can_search(item.preview@.len(), old(self).query@),
        ensures
            final(self).wf(),
            final(self).next_id == old(self).next_id + 1,
            final(self).query@ == old(self).query@,
            r is None == (is_repeat(old(self).items(), item@) || !is_kept(
                old(self).items(),
                item@,
            )),
            r is Some <==> exists|i: int|
                0 <= i < final(self).items().len() && (#[trigger] final(self).items()[i]).id
                    == item.id,
            r is None ==> {
                &&& final(self).items() == old(self).items()
                &&& final(self).rows@ == old(self).rows@
                &&& same_state(final(self).list, old(self).list)
            },
            r matches Some(dropped) ==> {
                let all = old(self).items().push(item@);
                &&& final(self).at_first_row(old(self).list)
                &&& final(self).items() == pruned(all)
                &&& views(dropped@) == evicted(all)
            },
    {
        let ghost before = self.items();
        let ghost added = item@;
        let dropped = push_item(&mut self.hist, item);
        self.next_id += 1;
        proof {
            let all = before.push(added);
            crate::history::lemma_pruned_is_part(all);
            assert forall|i: int| 0 <= i < self.hist@.len() implies (#[trigger] self.items()[i]).id
                < self.next_id && can_search(
                self.items()[i].preview.len(),
                self.query@,
            ) by {
                if dropped is Some {
                    assert(pruned(all).contains(pruned(all)[i]));
                    let k = choose|k: int| 0 <= k < all.len() && all[k] == pruned(all)[i];
                    if k < before.len() {
                        assert(before[k] == all[k]);
                    }
                }
            }
            crate::history::law_pruning_reaches_limit(all);
            crate::history::law_added_item_is_there(before, added);
            assert(self.hist@.len() == self.items().len());
        }
        if dropped.is_some() {
            self.refresh();
        }
        dropped
    }

    /// Flips the pin of the item that a row shows, and keeps that item
    /// selected. Returns whether there is such an item.
    pub fn toggle_pin_at_row(&mut self, row: i32) -> (r: bool)
        requires
            old(self).wf(),
        ensures
            final(self).wf(),
            final(self).query@ == old(self).query@,
            final(self).next_id == old(self).next_id,
            r == (0 <= row < old(self).rows@.len()),
            final(self).list.view_h == old(self).list.view_h,
            !r ==> {
                &&& final(self).items() == old(self).items()
                &&& final(self).rows@ == old(self).rows@
                &&& same_state(final(self).list, old(self).list)
            },
            r ==> {
                let i = old(self).rows@[row as int].hist_index;
                &&& i < old(self).hist@.len()
                &&& final(self).items() == with_pin_toggled(old(self).items(), i as int)
                &&& 0 <= final(self).list.sel < final(self).rows@.len()
                &&& final(self).rows@[final(self).list.sel as int].hist_index == i
                &&& scroll_of(final(self).list) == showing(
                    final(self).list,
                    first_shown(final(self).list, old(self).list),
                    final(self).list.sel as int,
                )
            },
    {
        let ghost order = row_order(row_views(self.rows@));
        proof {
            if 0 <= row < self.rows@.len() {
                assert(order[row as int] == self.rows@[row as int].hist_index);
            }
        }
        let i: usize = match row_to_hist(&self.rows, &self.hist, row) {
            Some(i) => i,
            None => {
                return false;
            },
        };
        let ghost before = self.items();
        proof {
            assert(order[row as int] == i);
            assert(i < before.len());
            assert(order.contains(i as int as usize));
        }
        toggle_pin(&mut self.hist, i);
        proof {
            assert(self.items() == with_pin_toggled(before, i as int));
            assert(self.items().len() == self.hist@.len());
            assert forall|k: int| 0 <= k < self.hist@.len() implies (#[trigger] self.items()[k]).id
                < self.next_id && can_search(
                self.items()[k].preview.len(),
                self.query@,
            ) by {
                assert(self.items()[k].id == before[k].id);
                assert(self.items()[k].preview == before[k].preview);
            }
        }
        self.refresh();
        proof {
            assert(is_found(before[i as int], self.query@));
            assert(is_found(self.items()[i as int], self.query@));
            let now = row_order(row_views(self.rows@));
            assert(now.contains(i as int as usize));
            let k = choose|k: int| 0 <= k < now.len() && now[k] == i;
            assert(self.rows@[k].hist_index == i);
        }
        if let Some(k) = row_of_item(&self.rows, i) {
            self.list.list_set_sel(k as i32);
        }
        true
    }

    /// Takes the item that a row shows out of the history.
    pub fn delete_at_row(&mut self, row: i32) -> (r: Option<ClipItem>)
        requires
            old(self).wf(),
        ensures
            final(self).wf(),
            final(self).query@ == old(self).query@,
            final(self).next_id == old(self).next_id,
            r is Some == (0 <= row < old(self).rows@.len()),
            r is None ==> {
                &&& final(self).items() == old(self).items()
                &&& final(self).rows@ == old(self).rows@
                &&& same_state(final(self).list, old(self).list)
            },
            r matches Some(item) ==> {
                let i = old(self).rows@[row as int].hist_index;
                &&& final(self).at_first_row(old(self).list)
                &&& i < old(self).hist@.len()
                &&& item@ == old(self).items()[i as int]
                &&& final(self).items() == old(self).items().remove(i as int)
            },
    {
        let ghost order = row_order(row_views(self.rows@));
        proof {
            if 0 <= row < self.rows@.len() {
                assert(order[row as int] == self.rows@[row as int].hist_index);
            }
        }
        let i: usize = match row_to_hist(&self.rows, &self.hist, row) {
            Some(i) => i,
            None => {
                return None;
            },
        };
        let ghost before = self.items();
        assert(order[row as int] == i);
        assert(i < before.len());
        let removed = delete_item(&mut self.hist, i);
        proof {
            assert(self.items() == before.remove(i as int));
            assert(self.items().len() == self.hist@.len());
            assert forall|k: int| 0 <= k < self.hist@.len() implies (#[trigger] self.items()[k]).id
                < self.next_id && can_search(
                self.items()[k].preview.len(),
                self.query@,
            ) by {
                let from = if k < i {
                    k
                } else {
                    k + 1
                };
                assert(self.items()[k] == before[from]);
            }
        }
        self.refresh();
        removed
    }

    /// Takes every item out of the history.
    pub fn clear(&mut self)
        requires
            old(self).wf(),
        ensures
            final(self).wf(),
            final(self).items().len() == 0,
            final(self).rows@.len() == 0,
            final(self).at_first_row(old(self).list),
            final(self).query@ == old(self).query@,
            final(self).next_id == old(self).next_id,
    {
        clear_items(&mut self.hist);
        assert(self.items().len() == 0);
        self.refresh();
        proof {
            lemma_rows_bounded(
                self.items(),
                search_results(self.items(), trim(self.query@)),
                row_views(self.rows@),
            );
        }
    }

    /// The history index of the selected item, if there is one.
    pub fn selected(&self) -> (r: Option<usize>)
        requires
            self.wf(),
        ensures
            r is Some == (self.list.sel >= 0),
            r matches Some(i) ==> i < self.hist@.len() && i
                == self.rows@[self.list.sel as int].hist_index,
    {
        proof {
            if self.list.sel >= 0 {
                let order = row_order(row_views(self.rows@));
                assert(order[self.list.sel as int]
                    == self.rows@[self.list.sel as int].hist_index);
            }
        }
        row_to_hist(&self.rows, &self.hist, self.list.sel)
    }
}

/// There are no more rows than items.
proof fn lemma_rows_bounded(
    hist: Seq<ItemView>,
    results: Seq<Option<(i64, Seq<usize>)>>,
    rows: Seq<(usize, Seq<usize>)>,
)
    requires
        are_rows(hist, results, rows),
    ensures
        rows.len() <= hist.len(),
{
    let order = row_order(rows);
    assert(order.no_duplicates()) by {
        assert forall|j: int, k: int|
            0 <= j < order.len() && 0 <= k < order.len() && j != k implies order[j] != order[k] by {
            if j < k {
                crate::filter::law_rows_are_distinct(hist, results, rows, j, k);
            } else {
                crate::filter::law_rows_are_distinct(hist, results, rows, k, j);
            }
        }
    }
    let ints = order.map_values(|u: usize| u as int);
    assert(ints.no_duplicates());
    lemma_distinct_below(ints, hist.len() as int);
}

/// There are at most `n` different numbers from zero to below `n`.
proof fn lemma_distinct_below(s: Seq<int>, n: int)
    requires
        0 <= n,
        s.no_duplicates(),
        forall|i: int| 0 <= i < s.len() ==> 0 <= #[trigger] s[i] < n,
    ensures
        s.len() <= n,
    decreases n,
{
    if n == 0 {
        if s.len() > 0 {
            assert(0 <= s[0] < n);
        }
    } else if s.contains(n - 1) {
        let k = choose|k: int| 0 <= k < s.len() && s[k] == n - 1;
        let t = s.remove(k);
        assert forall|i: int| 0 <= i < t.len() implies 0 <= #[trigger] t[i] < n - 1 by {
            let from = if i < k {
                i
            } else {
                i + 1
            };
            assert(t[i] == s[from]);
            assert(s[from] != s[k]);
        }
        assert(t.no_duplicates()) by {
            assert forall|i: int, j: int|
                0 <= i < t.len() && 0 <= j < t.len() && i != j implies t[i] != t[j] by {
                let fi = if i < k {
                    i
                } else {
                    i + 1
                };
                let fj = if j < k {
                    j
                } else {
                    j + 1
                };
                assert(t[i] == s[fi] && t[j] == s[fj]);
            }
        }
        lemma_distinct_below(t, n - 1);
    } else {
        assert forall|i: int| 0 <= i < s.len() implies 0 <= #[trigger] s[i] < n - 1 by {
            assert(s.contains(s[i]));
        }
        lemma_distinct_below(s, n - 1);
    }
}

// ---------------------------------------------------------------------
// What the list shows.
// ---------------------------------------------------------------------
/// An item is listed exactly where nothing is searched for or its preview
/// matches; the list has a row for each, as high as its kind asks for.
pub proof fn law_session_lists_matches(s: Session, i: int, k: int)
    requires
        s.wf(),
        0 <= i < s.hist@.len(),
        0 <= k < s.rows@.len(),
    ensures
        (exists|n: int| 0 <= n < s.rows@.len() && (#[trigger] s.rows@[n]).hist_index == i) == (trim(
            s.query@,
        ).len() == 0 || fuzzy_matches(s.hist@[i].preview@, trim(s.query@))),
        s.list.tops@.len() == s.rows@.len() + 1,
        s.rows@[k].hist_index < s.hist@.len(),
        s.hist@[s.rows@[k].hist_index as int].kind == ItemType::Image ==> s.list.tops@[k + 1]
            - s.list.tops@[k] == 102,
        s.hist@[s.rows@[k].hist_index as int].kind != ItemType::Image ==> s.list.tops@[k + 1]
            - s.list.tops@[k] == 34,
        s.hist@[i].id < s.next_id,
{
    let order = row_order(row_views(s.rows@));
    assert(s.items()[i] == s.hist@[i]@);
    assert(order.contains(i as usize) == is_found(s.items()[i], s.query@));
    if order.contains(i as usize) {
        let n = choose|n: int| 0 <= n < order.len() && order[n] == i as usize;
        assert(s.rows@[n].hist_index == i);
    }
    if exists|n: int| 0 <= n < s.rows@.len() && (#[trigger] s.rows@[n]).hist_index == i {
        let n = choose|n: int| 0 <= n < s.rows@.len() && (#[trigger] s.rows@[n]).hist_index == i;
        assert(order[n] == i);
    }
    assert(order[k] == s.rows@[k].hist_index);
    crate::list::law_row_heights(s.hist@, s.rows@, k);
}

/// After every change of what is listed the first row is in view, at the top of
/// the list, as long as it fits.
pub proof fn law_first_row_is_at_top(list: ListView, before: ListView)
    requires
        list.wf(),
        list.rows() > 0,
        list.tops@[1] <= list.view_h,
    ensures
        first_shown(list, before).0 == 0,
{
}

/// A list that is laid out anew stays where it was, and on its way to where it
/// was going, as far as it still reaches that far.
pub proof fn law_relaid(list: ListView, before: ListView)
    requires
        list.wf(),
        before.wf(),
    ensures
        before.scroll_y <= list.limit() ==> relaid(list, before).0 == before.scroll_y,
        before.scroll_y > list.limit() ==> relaid(list, before).0 == list.limit(),
        before.target <= list.limit() ==> relaid(list, before).1 == before.target,
        before.target > list.limit() ==> relaid(list, before).1 == list.limit(),
        relaid(list, before).2 == before.animating,
        list.rows() == 0 ==> first_shown(list, before) == relaid(list, before),
        list.rows() > 0 ==> first_shown(list, before) == showing(list, relaid(list, before), 0),
{
}

/// A row that is brought into view from a position moves the list as little as
/// it takes, and then at once; one that is in view leaves it as it was.
pub proof fn law_showing(list: ListView, from: (int, int, bool), row: int)
    requires
        list.wf(),
        0 <= row < list.rows(),
    ensures
        from.0 <= list.tops@[row] && list.tops@[row + 1] <= from.0 + list.view_h ==> showing(
            list,
            from,
            row,
        ) == from,
        list.tops@[row] < from.0 ==> showing(list, from, row) == (
            list.tops@[row] as int,
            list.tops@[row] as int,
            false,
        ),
        list.tops@[row] >= from.0 && list.tops@[row + 1] > from.0 + list.view_h ==> showing(
            list,
            from,
            row,
        ).0 + list.view_h == list.tops@[row + 1] && showing(list, from, row).1 == showing(
            list,
            from,
            row,
        ).0 && !showing(list, from, row).2,
        scroll_of(list) == (list.scroll_y as int, list.target as int, list.animating),
{
}

/// What can be searched: everything for nothing, and otherwise all previews for
/// which the table of scores fits.
pub proof fn law_searchable(n: nat, query: Seq<char>)
    ensures
        trim(query).len() == 0 ==> can_search(n, query),
        trim(query).len() > 0 ==> can_search(n, query) == (n < 0x4000_0000 && trim(query).len()
            < 0x400_0000 && 32 * ((n + 1) * (trim(query).len() + 1)) <= isize::MAX),
{
}

/// After every change of what is listed the first row is selected, or none
/// where there is no row.
pub proof fn law_first_row_is_selected(s: Session, before: ListView)
    requires
        s.at_first_row(before),
    ensures
        s.rows@.len() > 0 ==> s.list.sel == 0,
        s.rows@.len() == 0 ==> s.list.sel == -1,
        s.list.view_h == before.view_h,
        (s.list.scroll_y as int, s.list.target as int, s.list.animating) == first_shown(
            s.list,
            before,
        ),
{
}

} // verus!
