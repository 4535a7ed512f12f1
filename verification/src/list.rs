//! The list control: row geometry, selection and eased scrolling.
//!
//! Positions are pixels from the top of the content. The view into the content
//! starts at `scroll_y`, which a timer moves toward `target`.

use vstd::prelude::*;

use crate::item::{ClipItem, FilterRow, ItemType};
use crate::message::{low_word, signed_high, signed_low};
use crate::message::{low_of, signed_high_of, signed_low_of};

verus! {

/// The width of the column at the right edge that holds the star.
pub const PIN_AREA_W: i32 = 22;

/// The number of the timer that moves the window.
pub const SCROLL_TIMER_ID: u64 = 1;

/// The height of a row of text.
pub const TEXT_ITEM_HEIGHT: i32 = 34;

/// The height of a row with a picture.
pub const IMAGE_ITEM_HEIGHT: i32 = 102;

/// How far one notch of the wheel scrolls.
pub const WHEEL_NOTCH_PX: i32 = 60;

/// The value of one notch of the wheel.
pub const WHEEL_DELTA: i32 = 120;

/// Each tick closes one part in this many of the distance that is left.
pub const SCROLL_EASE_DIV: i32 = 4;

/// The most rows that the list can lay out: as many as there are of the
/// highest rows below the largest 32-bit position.
pub const MAX_ROWS: usize = 21_053_761;

// ---------------------------------------------------------------------
// Row geometry.
// ---------------------------------------------------------------------
/// The height of the row that shows the item at `i`.
pub open spec fn row_height(hist: Seq<ClipItem>, i: int) -> int {
    if 0 <= i < hist.len() && hist[i].kind == ItemType::Image {
        IMAGE_ITEM_HEIGHT as int
    } else {
        TEXT_ITEM_HEIGHT as int
    }
}

/// The top of row `k`: the heights of the rows above it.
pub open spec fn row_top(hist: Seq<ClipItem>, rows: Seq<FilterRow>, k: int) -> int
    decreases k,
{
    if k <= 0 {
        0
    } else {
        row_top(hist, rows, k - 1) + row_height(hist, rows[k - 1].hist_index as int)
    }
}

/// Whether `tops` are the tops of rows, followed by the height of the content:
/// rows follow each other without gaps, and none is lower than a row of text.
pub open spec fn are_tops(tops: Seq<i32>) -> bool {
    &&& tops.len() >= 1
    &&& tops[0] == 0
    &&& forall|j: int, k: int|
        0 <= j < k < tops.len() ==> #[trigger] tops[j] + TEXT_ITEM_HEIGHT <= #[trigger] tops[k]
    &&& forall|k: int|
        0 <= k < tops.len() ==> 0 <= #[trigger] tops[k] <= IMAGE_ITEM_HEIGHT * MAX_ROWS
}

/// The tops of all rows, followed by the height of the content.
pub fn row_tops(hist: &Vec<ClipItem>, rows: &Vec<FilterRow>) -> (r: Vec<i32>)
    requires
        rows@.len() <= MAX_ROWS,
    ensures
        are_tops(r@),
        r@.len() == rows@.len() + 1,
        forall|k: int| 0 <= k < r@.len() ==> #[trigger] r@[k] == row_top(hist@, rows@, k),
{
    let mut tops: Vec<i32> = Vec::new();
    let mut y: i32 = 0;
    tops.push(0);
    let mut i: usize = 0;
    while i < rows.len()
        invariant
            i <= rows@.len() <= MAX_ROWS,
            tops@.len() == i + 1,
            y == tops@[i as int],
            0 <= y <= IMAGE_ITEM_HEIGHT * i,
            forall|k: int| 0 <= k <= i ==> #[trigger] tops@[k] == row_top(hist@, rows@, k),
            tops@[0] == 0,
            forall|j: int, k: int|
                0 <= j < k <= i ==> #[trigger] tops@[j] + TEXT_ITEM_HEIGHT <= #[trigger] tops@[k],
            forall|k: int| 0 <= k <= i ==> 0 <= #[trigger] tops@[k] <= IMAGE_ITEM_HEIGHT * i,
        decreases rows@.len() - i,
    {
        let at: usize = rows[i].hist_index;
        let h: i32 = if at < hist.len() && hist[at].kind == ItemType::Image {
            IMAGE_ITEM_HEIGHT
        } else {
            TEXT_ITEM_HEIGHT
        };
        y += h;
        tops.push(y);
        i += 1;
    }
    tops
}

// ---------------------------------------------------------------------
// The state of the list.
// ---------------------------------------------------------------------
/// The state of the list control.
#[derive(Clone, Debug)]
pub struct ListView {
    /// The tops of the rows, followed by the height of the content.
    pub tops: Vec<i32>,
    /// The height of the window on the content.
    pub view_h: i32,
    /// Where the window starts.
    pub scroll_y: i32,
    /// Where the window is moving to.
    pub target: i32,
    /// The selected row, -1 where there is none.
    pub sel: i32,
    /// Whether the timer that moves the window is running.
    pub animating: bool,
}

impl ListView {
    /// The number of rows.
    pub open spec fn rows(&self) -> int {
        self.tops@.len() - 1
    }

    /// The height of the content.
    pub open spec fn content(&self) -> int {
        self.tops@.last() as int
    }

    /// The largest scroll position: the one at which the end of the content is
    /// at the bottom of the window.
    pub open spec fn limit(&self) -> int {
        if self.content() - self.view_h > 0 {
            self.content() - self.view_h
        } else {
            0
        }
    }

    /// Whether the list moves, or is where it was moving to.
    pub open spec fn settled(&self) -> bool {
        self.animating || self.scroll_y == self.target
    }

    /// The invariant of the list: both positions are within the content, and
    /// the selection is a row or nothing.
    pub open spec fn wf(&self) -> bool {
        &&& are_tops(self.tops@)
        &&& 0 <= self.view_h
        &&& 0 <= self.scroll_y <= self.limit()
        &&& 0 <= self.target <= self.limit()
        &&& -1 <= self.sel < self.rows()
        &&& self.tops@.len() <= MAX_ROWS + 1
    }

    /// An empty list.
    pub fn new() -> (r: ListView)
        ensures
            r.wf(),
            r.rows() == 0,
            r.view_h == 0,
            r.sel == -1,
            r.scroll_y == 0,
            r.target == 0,
            !r.animating,
    {
        let mut tops: Vec<i32> = Vec::new();
        tops.push(0);
        ListView { tops, view_h: 0, scroll_y: 0, target: 0, sel: -1, animating: false }
    }

    /// The number of rows.
    pub fn row_count(&self) -> (r: usize)
        requires
            self.wf(),
        ensures
            r == self.rows(),
    {
        self.tops.len() - 1
    }

    /// The height of the content.
    pub fn content_height(&self) -> (r: i32)
        requires
            self.wf(),
        ensures
            r == self.content(),
    {
        self.tops[self.tops.len() - 1]
    }

    /// The largest scroll position.
    pub fn max_scroll(&self) -> (r: i32)
        requires
            self.wf(),
        ensures
            r == self.limit(),
    {
        let total: i32 = self.content_height();
        if total > self.view_h {
            total - self.view_h
        } else {
            0
        }
    }

    /// The top and the bottom of a row.
    pub fn row_bounds(&self, idx: usize) -> (r: Option<(i32, i32)>)
        requires
            self.wf(),
        ensures
            r is Some == (idx < self.rows()),
            r matches Some((top, bottom)) ==> top == self.tops@[idx as int] && bottom
                == self.tops@[idx + 1],
    {
        if idx < self.tops.len() - 1 {
            Some((self.tops[idx], self.tops[idx + 1]))
        } else {
            None
        }
    }

    /// The row at a position of the content.
    pub fn row_at_content_y(&self, y: i32) -> (r: Option<usize>)
        requires
            self.wf(),
        ensures
            r is Some == (0 <= y < self.content()),
            r matches Some(k) ==> k < self.rows() && self.tops@[k as int] <= y < self.tops@[k + 1],
    {
        if y < 0 || y >= self.content_height() {
            return None;
        }
        let mut lo: usize = 0;
        let mut hi: usize = self.tops.len() - 1;
        while hi - lo > 1
            invariant
                self.wf(),
                lo < hi < self.tops@.len(),
                self.tops@[lo as int] <= y < self.tops@[hi as int],
            decreases hi - lo,
        {
            let mid: usize = lo + (hi - lo) / 2;
            if self.tops[mid] <= y {
                lo = mid;
            } else {
                hi = mid;
            }
        }
        Some(lo)
    }

    /// `y`, brought into the range of scroll positions.
    pub open spec fn clamped(&self, y: int) -> int {
        if y < 0 {
            0
        } else if y > self.limit() {
            self.limit()
        } else {
            y
        }
    }

    fn clamp(&self, y: i64) -> (r: i32)
        requires
            are_tops(self.tops@),
            0 <= self.view_h,
        ensures
            r == self.clamped(y as int),
            0 <= r <= self.limit(),
    {
        let total: i32 = self.tops[self.tops.len() - 1];
        let most: i32 = if total > self.view_h {
            total - self.view_h
        } else {
            0
        };
        if y < 0 {
            0
        } else if y > most as i64 {
            most
        } else {
            y as i32
        }
    }

    /// Starts moving toward a position.
    pub fn scroll_to_target(&mut self, y: i64)
        requires
            old(self).wf(),
        ensures
            final(self).wf(),
            final(self).target == old(self).clamped(y as int),
            final(self).animating == (final(self).scroll_y != final(self).target),
            final(self).tops@ == old(self).tops@,
            final(self).view_h == old(self).view_h,
            final(self).scroll_y == old(self).scroll_y,
            final(self).sel == old(self).sel,
    {
        let target: i32 = self.clamp(y);
        self.animating = self.scroll_y != target;
        self.target = target;
    }

    /// Moves to a position at once.
    pub fn scroll_immediate(&mut self, y: i64)
        requires
            old(self).wf(),
        ensures
            final(self).wf(),
            final(self).scroll_y == old(self).clamped(y as int),
            final(self).target == final(self).scroll_y,
            !final(self).animating,
            final(self).tops@ == old(self).tops@,
            final(self).view_h == old(self).view_h,
            final(self).sel == old(self).sel,
    {
        let y: i32 = self.clamp(y);
        self.animating = false;
        self.scroll_y = y;
        self.target = y;
    }

    /// One step toward the target: a quarter of the distance, at least one
    /// pixel. Returns whether the window moved.
    pub fn anim_tick(&mut self) -> (r: bool)
        requires
            old(self).wf(),
        ensures
            final(self).wf(),
            r == (old(self).scroll_y != old(self).target),
            final(self).scroll_y == eased(old(self).scroll_y as int, old(self).target as int),
            final(self).animating == (old(self).animating && final(self).scroll_y
                != final(self).target),
            final(self).target == old(self).target,
            final(self).tops@ == old(self).tops@,
            final(self).view_h == old(self).view_h,
            final(self).sel == old(self).sel,
    {
        let diff: i32 = self.target - self.scroll_y;
        if diff == 0 {
            self.animating = false;
            return false;
        }
        let mut step: i32 = diff / SCROLL_EASE_DIV;
        if step == 0 {
            step = if diff > 0 {
                1
            } else {
                -1
            };
        }
        let next: i32 = self.scroll_y + step;
        if next == self.target {
            self.animating = false;
        }
        self.scroll_y = next;
        true
    }

    /// The scroll position that brings a row into view with the least movement.
    pub open spec fn position_showing(&self, idx: int) -> int {
        if self.tops@[idx] < self.scroll_y {
            self.tops@[idx] as int
        } else if self.tops@[idx + 1] > self.scroll_y + self.view_h {
            self.tops@[idx + 1] - self.view_h
        } else {
            self.scroll_y as int
        }
    }

    /// Brings a row into view at once, with the least movement.
    pub fn ensure_visible(&mut self, idx: usize)
        requires
            old(self).wf(),
        ensures
            final(self).wf(),
            final(self).tops@ == old(self).tops@,
            final(self).view_h == old(self).view_h,
            final(self).sel == old(self).sel,
            idx < old(self).rows() && old(self).position_showing(idx as int) != old(self).scroll_y
                ==> {
                &&& final(self).scroll_y == old(self).position_showing(idx as int)
                &&& final(self).target == final(self).scroll_y
                &&& !final(self).animating
            },
            idx >= old(self).rows() || old(self).position_showing(idx as int)
                == old(self).scroll_y ==> {
                &&& final(self).scroll_y == old(self).scroll_y
                &&& final(self).target == old(self).target
                &&& final(self).animating == old(self).animating
            },
    {
        match self.row_bounds(idx) {
            None => {},
            Some((top, bottom)) => {
                let mut y: i64 = self.scroll_y as i64;
                if top < self.scroll_y {
                    y = top as i64;
                } else if bottom as i64 > self.scroll_y as i64 + self.view_h as i64 {
                    y = bottom as i64 - self.view_h as i64;
                }
                proof {
                    assert(top + TEXT_ITEM_HEIGHT <= bottom);
                    if idx + 1 < self.tops@.len() - 1 {
                        assert(self.tops@[idx + 1] + TEXT_ITEM_HEIGHT
                            <= self.tops@[self.tops@.len() - 1]);
                    }
                    assert(bottom <= self.content());
                }
                if y != self.scroll_y as i64 {
                    self.scroll_immediate(y);
                }
            },
        }
    }

    /// The row that is selected where row `idx` is asked for.
    pub open spec fn selection_for(&self, idx: int) -> int {
        if self.rows() == 0 || idx < 0 {
            -1
        } else if idx > self.rows() - 1 {
            self.rows() - 1
        } else {
            idx
        }
    }

    /// Selects a row, the last one where `idx` is beyond it and none where it
    /// is negative, and brings it into view.
    pub fn list_set_sel(&mut self, idx: i32)
        requires
            old(self).wf(),
        ensures
            final(self).wf(),
            old(self).settled() ==> final(self).settled(),
            final(self).sel == old(self).selection_for(idx as int),
            final(self).tops@ == old(self).tops@,
            final(self).view_h == old(self).view_h,
            final(self).sel >= 0 ==> final(self).scroll_y == old(self).position_showing(
                final(self).sel as int,
            ),
            final(self).sel < 0 ==> final(self).scroll_y == old(self).scroll_y,
            final(self).scroll_y == old(self).scroll_y ==> final(self).target == old(self).target
                && final(self).animating == old(self).animating,
            final(self).scroll_y != old(self).scroll_y ==> final(self).target
                == final(self).scroll_y && !final(self).animating,
    {
        let count: usize = self.row_count();
        let new: i32 = if count == 0 || idx < 0 {
            -1
        } else if idx as usize > count - 1 {
            (count - 1) as i32
        } else {
            idx
        };
        self.sel = new;
        if new >= 0 {
            self.ensure_visible(new as usize);
        }
    }

    /// Lays the list out anew: new rows, the selection and both positions
    /// brought into their range.
    pub fn list_rebuild(&mut self, hist: &Vec<ClipItem>, rows: &Vec<FilterRow>)
        requires
            old(self).wf(),
            rows@.len() <= MAX_ROWS,
        ensures
            final(self).wf(),
            old(self).settled() ==> final(self).settled(),
            final(self).rows() == rows@.len(),
            forall|k: int|
                0 <= k <= rows@.len() ==> #[trigger] final(self).tops@[k] == row_top(
                    hist@,
                    rows@,
                    k,
                ),
            final(self).sel == if old(self).sel >= rows@.len() {
                rows@.len() - 1
            } else {
                old(self).sel as int
            },
            final(self).scroll_y == final(self).clamped(old(self).scroll_y as int),
            final(self).target == final(self).clamped(old(self).target as int),
            final(self).animating == old(self).animating,
            final(self).view_h == old(self).view_h,
    {
        self.tops = row_tops(hist, rows);
        let count: usize = self.tops.len() - 1;
        if self.sel >= 0 && self.sel as usize >= count {
            self.sel = if count == 0 {
                -1
            } else {
                (count - 1) as i32
            };
        }
        let y: i32 = self.clamp(self.scroll_y as i64);
        let target: i32 = self.clamp(self.target as i64);
        self.scroll_y = y;
        self.target = target;
    }

    /// Gives the window a new height; negative heights count as none.
    pub fn resize(&mut self, view_h: i32)
        requires
            old(self).wf(),
        ensures
            final(self).wf(),
            final(self).view_h == if view_h < 0 {
                0
            } else {
                view_h as int
            },
            final(self).scroll_y == final(self).clamped(old(self).scroll_y as int),
            final(self).target == final(self).clamped(old(self).target as int),
            final(self).tops@ == old(self).tops@,
            final(self).sel == old(self).sel,
            final(self).animating == old(self).animating,
    {
        self.view_h = if view_h < 0 {
            0
        } else {
            view_h
        };
        let y: i32 = self.clamp(self.scroll_y as i64);
        let target: i32 = self.clamp(self.target as i64);
        self.scroll_y = y;
        self.target = target;
    }
}

/// The position after one step from `cur` toward `target`: a quarter of the
/// distance, rounded toward zero, and at least one pixel.
pub open spec fn eased(cur: int, target: int) -> int {
    if target > cur {
        let step = (target - cur) / SCROLL_EASE_DIV as int;
        cur + if step == 0 {
            1
        } else {
            step
        }
    } else if target < cur {
        let step = (cur - target) / SCROLL_EASE_DIV as int;
        cur - if step == 0 {
            1
        } else {
            step
        }
    } else {
        cur
    }
}

/// How far a position is from the target.
pub open spec fn distance(cur: int, target: int) -> int {
    if cur < target {
        target - cur
    } else {
        cur - target
    }
}

/// Every step comes closer to the target and never passes it.
pub proof fn law_easing_approaches(cur: int, target: int)
    requires
        cur != target,
    ensures
        distance(eased(cur, target), target) < distance(cur, target),
        cur < target ==> cur < eased(cur, target) <= target,
        cur > target ==> target <= eased(cur, target) < cur,
{
}

/// The position after `n` steps.
pub open spec fn eased_steps(cur: int, target: int, n: nat) -> int
    decreases n,
{
    if n == 0 {
        cur
    } else {
        eased_steps(eased(cur, target), target, (n - 1) as nat)
    }
}

/// The target is reached after no more steps than there are pixels.
pub proof fn law_easing_arrives(cur: int, target: int, n: nat)
    requires
        n >= distance(cur, target),
    ensures
        eased_steps(cur, target, n) == target,
    decreases n,
{
    if n > 0 {
        if cur != target {
            law_easing_approaches(cur, target);
        }
        law_easing_arrives(eased(cur, target), target, (n - 1) as nat);
    }
}

/// A row that fits into the window is fully visible once it has been brought
/// into view.
pub proof fn law_shown_row_is_visible(list: ListView, idx: int)
    requires
        list.wf(),
        0 <= idx < list.rows(),
        list.tops@[idx + 1] - list.tops@[idx] <= list.view_h,
    ensures
        list.position_showing(idx) <= list.tops@[idx],
        list.tops@[idx + 1] <= list.position_showing(idx) + list.view_h,
        0 <= list.position_showing(idx) <= list.limit(),
{
    if idx + 1 < list.tops@.len() - 1 {
        assert(list.tops@[idx + 1] + TEXT_ITEM_HEIGHT <= list.tops@[list.tops@.len() - 1]);
    }
}

// ---------------------------------------------------------------------
// Scrolling by wheel and scroll bar.
// ---------------------------------------------------------------------
/// How far the wheel scrolls: a notch forward is toward earlier items.
pub open spec fn wheel_shift(delta: int) -> int {
    if delta >= 0 {
        -(delta * WHEEL_NOTCH_PX / WHEEL_DELTA as int)
    } else {
        (-delta) * WHEEL_NOTCH_PX / WHEEL_DELTA as int
    }
}

/// The commands of a scroll bar.
pub const SB_LINEUP: u32 = 0;

pub const SB_LINEDOWN: u32 = 1;

pub const SB_PAGEUP: u32 = 2;

pub const SB_PAGEDOWN: u32 = 3;

pub const SB_THUMBPOSITION: u32 = 4;

pub const SB_THUMBTRACK: u32 = 5;

pub const SB_TOP: u32 = 6;

pub const SB_BOTTOM: u32 = 7;

/// Where a command of the scroll bar moves to, eased; `None` where it does not
/// move or moves at once.
pub open spec fn scroll_command(list: ListView, code: u32) -> Option<int> {
    if code == SB_LINEUP {
        Some(list.target - TEXT_ITEM_HEIGHT)
    } else if code == SB_LINEDOWN {
        Some(list.target + TEXT_ITEM_HEIGHT)
    } else if code == SB_PAGEUP {
        Some(list.target - list.view_h)
    } else if code == SB_PAGEDOWN {
        Some(list.target + list.view_h)
    } else if code == SB_TOP {
        Some(0)
    } else if code == SB_BOTTOM {
        Some(list.limit())
    } else {
        None
    }
}

impl ListView {
    /// Scrolls by the wheel.
    pub fn wheel(&mut self, delta: i32)
        requires
            old(self).wf(),
        ensures
            final(self).wf(),
            final(self).target == old(self).clamped(old(self).target + wheel_shift(delta as int)),
            final(self).animating == (final(self).scroll_y != final(self).target),
            final(self).tops@ == old(self).tops@,
            final(self).view_h == old(self).view_h,
            final(self).scroll_y == old(self).scroll_y,
            final(self).sel == old(self).sel,
    {
        let dy: i64 = if delta >= 0 {
            -(delta as i64 * WHEEL_NOTCH_PX as i64 / WHEEL_DELTA as i64)
        } else {
            let back: i64 = -(delta as i64);
            assert(0 < back <= 0x8000_0000);
            assert(back * WHEEL_NOTCH_PX == back * 60);
            back * WHEEL_NOTCH_PX as i64 / WHEEL_DELTA as i64
        };
        self.scroll_to_target(self.target as i64 + dy);
    }

    /// Scrolls by the scroll bar. A dragged thumb moves the window at once, to
    /// `track`.
    pub fn handle_vscroll(&mut self, code: u32, track: i32)
        requires
            old(self).wf(),
        ensures
            final(self).wf(),
            final(self).tops@ == old(self).tops@,
            final(self).view_h == old(self).view_h,
            final(self).sel == old(self).sel,
            scroll_command(*old(self), code) matches Some(y) ==> {
                &&& final(self).target == old(self).clamped(y)
                &&& final(self).animating == (final(self).scroll_y != final(self).target)
                &&& final(self).scroll_y == old(self).scroll_y
            },
            code == SB_THUMBTRACK || code == SB_THUMBPOSITION ==> {
                &&& final(self).scroll_y == old(self).clamped(track as int)
                &&& final(self).target == final(self).scroll_y
                &&& !final(self).animating
            },
            code > SB_BOTTOM ==> {
                &&& final(self).scroll_y == old(self).scroll_y
                &&& final(self).target == old(self).target
                &&& final(self).animating == old(self).animating
            },
    {
        let target: i64 = self.target as i64;
        if code == SB_LINEUP {
            self.scroll_to_target(target - TEXT_ITEM_HEIGHT as i64);
        } else if code == SB_LINEDOWN {
            self.scroll_to_target(target + TEXT_ITEM_HEIGHT as i64);
        } else if code == SB_PAGEUP {
            self.scroll_to_target(target - self.view_h as i64);
        } else if code == SB_PAGEDOWN {
            self.scroll_to_target(target + self.view_h as i64);
        } else if code == SB_TOP {
            self.scroll_to_target(0);
        } else if code == SB_BOTTOM {
            let most: i32 = self.max_scroll();
            self.scroll_to_target(most as i64);
        } else if code == SB_THUMBTRACK || code == SB_THUMBPOSITION {
            self.scroll_immediate(track as i64);
        }
    }

    /// What the scroll bar shows: the last pixel of the content, how much of it
    /// is in view, and where the view starts.
    pub open spec fn bar(&self) -> (int, int, int) {
        (
            if self.content() > 0 {
                self.content() - 1
            } else {
                0
            },
            self.view_h as int,
            self.scroll_y as int,
        )
    }

    /// The last position, the page and the position of the scroll bar.
    pub fn scrollbar(&self) -> (r: (i32, u32, i32))
        requires
            self.wf(),
        ensures
            r.0 == if self.content() > 0 {
                self.content() - 1
            } else {
                0
            },
            r.1 == self.view_h,
            r.2 == self.scroll_y,
            self.bar() == (r.0 as int, r.1 as int, r.2 as int),
    {
        let total: i32 = self.content_height();
        (
            if total > 0 {
                total - 1
            } else {
                0
            },
            self.view_h as u32,
            self.scroll_y,
        )
    }

    /// The top of row `k` in the window.
    pub open spec fn shown_top(&self, k: int) -> int {
        self.tops@[k] - self.scroll_y
    }

    /// Whether any of row `k` is in the window.
    pub open spec fn is_shown(&self, k: int) -> bool {
        self.shown_top(k + 1) > 0 && self.shown_top(k) < self.view_h
    }

    /// The rows to paint, with their tops and bottoms in the window: those of
    /// which something is in the window, in order.
    pub fn visible_rows(&self) -> (r: Vec<(usize, i32, i32)>)
        requires
            self.wf(),
        ensures
            forall|n: int|
                0 <= n < r@.len() ==> {
                    let (k, top, bottom) = #[trigger] r@[n];
                    &&& k < self.rows()
                    &&& self.is_shown(k as int)
                    &&& top == self.shown_top(k as int)
                    &&& bottom == self.shown_top(k + 1)
                },
            forall|m: int, n: int|
                0 <= m < n < r@.len() ==> (#[trigger] r@[m]).0 < (#[trigger] r@[n]).0,
            forall|k: int|
                0 <= k < self.rows() && #[trigger] self.is_shown(k) ==> exists|n: int|
                    0 <= n < r@.len() && (#[trigger] r@[n]).0 == k,
    {
        let mut out: Vec<(usize, i32, i32)> = Vec::new();
        let mut i: usize = 0;
        while i < self.tops.len() - 1
            invariant
                self.wf(),
                i <= self.tops@.len() - 1,
                forall|n: int|
                    0 <= n < out@.len() ==> {
                        let (k, top, bottom) = #[trigger] out@[n];
                        &&& k < i
                        &&& self.is_shown(k as int)
                        &&& top == self.shown_top(k as int)
                        &&& bottom == self.shown_top(k + 1)
                    },
                forall|m: int, n: int|
                    0 <= m < n < out@.len() ==> (#[trigger] out@[m]).0 < (#[trigger] out@[n]).0,
                forall|k: int|
                    0 <= k < i && #[trigger] self.is_shown(k) ==> exists|n: int|
                        0 <= n < out@.len() && (#[trigger] out@[n]).0 == k,
            decreases self.tops@.len() - i,
        {
            let top: i32 = self.tops[i] - self.scroll_y;
            let bottom: i32 = self.tops[i + 1] - self.scroll_y;
            let ghost before = out@;
            if bottom > 0 && top < self.view_h {
                out.push((i, top, bottom));
                assert(out@[before.len() as int].0 == i);
            }
            assert forall|k: int| 0 <= k < i + 1 && #[trigger] self.is_shown(k) implies exists|
                n: int,
            |
                0 <= n < out@.len() && (#[trigger] out@[n]).0 == k by {
                if k < i {
                    let n = choose|n: int| 0 <= n < before.len() && (#[trigger] before[n]).0 == k;
                    assert(out@[n].0 == k);
                }
            }
            i += 1;
        }
        out
    }

    /// The row at a position of the window.
    pub fn row_at_client_y(&self, y: i32) -> (r: Option<usize>)
        requires
            self.wf(),
        ensures
            r is Some == (0 <= y + self.scroll_y < self.content()),
            r matches Some(k) ==> k < self.rows() && self.tops@[k as int] <= y + self.scroll_y
                < self.tops@[k + 1],
    {
        let at: i64 = y as i64 + self.scroll_y as i64;
        if at < 0 || at >= self.content_height() as i64 {
            return None;
        }
        self.row_at_content_y(at as i32)
    }
}

// ---------------------------------------------------------------------
// The mouse.
// ---------------------------------------------------------------------
/// What a click into the list does.
#[derive(Clone, Copy, Debug, PartialEq, Eq, Structural)]
pub enum ListClick {
    Nothing,
    TogglePin(usize),
    Select(usize),
}

/// Whether a position is left of the column with the star.
pub open spec fn left_of_pin(x: int, client_w: int) -> bool {
    x < client_w - PIN_AREA_W
}

/// Whether a double click pastes: it does unless it is on the star, where the
/// first click has already flipped the pin.
pub fn double_click_pastes(x: i32, client_w: i32) -> (r: bool)
    ensures
        r == left_of_pin(x as int, client_w as int),
{
    (x as i64) < client_w as i64 - PIN_AREA_W as i64
}

/// What a click into the list does: on the star of a row it flips the pin, on
/// the rest of a row it selects it.
pub fn click(list: &ListView, x: i32, y: i32, client_w: i32) -> (r: ListClick)
    requires
        list.wf(),
    ensures
        r == ListClick::Nothing <==> !(0 <= y + list.scroll_y < list.content()),
        r matches ListClick::TogglePin(k) ==> k < list.rows() && !left_of_pin(
            x as int,
            client_w as int,
        ) && list.tops@[k as int] <= y + list.scroll_y < list.tops@[k + 1],
        r matches ListClick::Select(k) ==> k < list.rows() && left_of_pin(
            x as int,
            client_w as int,
        ) && list.tops@[k as int] <= y + list.scroll_y < list.tops@[k + 1],
{
    match list.row_at_client_y(y) {
        None => ListClick::Nothing,
        Some(k) => if double_click_pastes(x, client_w) {
            ListClick::Select(k)
        } else {
            ListClick::TogglePin(k)
        },
    }
}

/// The row that a context menu is for: the one at the pointer, or the selected
/// one where the menu was asked for by keyboard. `y` is the position in the
/// window.
pub fn context_row(list: &ListView, by_keyboard: bool, y: i32) -> (r: Option<usize>)
    requires
        list.wf(),
    ensures
        by_keyboard ==> r is Some == (list.sel >= 0) && (r matches Some(k) ==> k == list.sel),
        !by_keyboard ==> {
            &&& r is Some == (0 <= y + list.scroll_y < list.content())
            &&& r matches Some(k) ==> k < list.rows() && list.tops@[k as int] <= y + list.scroll_y
                < list.tops@[k + 1]
        },
{
    if by_keyboard {
        if list.sel < 0 {
            None
        } else {
            Some(list.sel as usize)
        }
    } else {
        list.row_at_client_y(y)
    }
}

/// Where the context menu of a row opens in the window, when asked for by
/// keyboard: at the bottom left of the row.
pub fn keyboard_anchor(list: &ListView, row: usize) -> (r: (i32, i32))
    requires
        list.wf(),
    ensures
        r.0 == 0,
        row < list.rows() ==> r.1 == list.shown_top(row + 1),
        row >= list.rows() ==> r.1 == -list.scroll_y,
{
    match list.row_bounds(row) {
        Some((_, bottom)) => (0, bottom - list.scroll_y),
        None => (0, -list.scroll_y),
    }
}

// ---------------------------------------------------------------------
// The context menu of a row.
// ---------------------------------------------------------------------
pub const IDM_ROW_PASTE: u32 = 200;

pub const IDM_ROW_PIN: u32 = 201;

pub const IDM_ROW_COPY: u32 = 202;

pub const IDM_ROW_DELETE: u32 = 203;

/// What the context menu of a row can do.
#[derive(Clone, Copy, Debug, PartialEq, Eq, Structural)]
pub enum RowCommand {
    Nothing,
    Paste,
    TogglePin,
    Copy,
    Delete,
}

/// The command behind a menu entry.
pub open spec fn row_command_of(id: u32) -> RowCommand {
    if id == IDM_ROW_PASTE {
        RowCommand::Paste
    } else if id == IDM_ROW_PIN {
        RowCommand::TogglePin
    } else if id == IDM_ROW_COPY {
        RowCommand::Copy
    } else if id == IDM_ROW_DELETE {
        RowCommand::Delete
    } else {
        RowCommand::Nothing
    }
}

/// The command behind a menu entry.
pub fn row_command(id: u32) -> (r: RowCommand)
    ensures
        r == row_command_of(id),
{
    if id == IDM_ROW_PASTE {
        RowCommand::Paste
    } else if id == IDM_ROW_PIN {
        RowCommand::TogglePin
    } else if id == IDM_ROW_COPY {
        RowCommand::Copy
    } else if id == IDM_ROW_DELETE {
        RowCommand::Delete
    } else {
        RowCommand::Nothing
    }
}

/// An entry of a menu. Entry 0 is a separator.
#[derive(Clone, Debug)]
pub struct MenuEntry {
    pub id: u32,
    pub text: &'static str,
}

/// The entries of a menu as mathematical values.
pub open spec fn entry_views(entries: Seq<MenuEntry>) -> Seq<(u32, Seq<char>)> {
    entries.map_values(|e: MenuEntry| (e.id, e.text@))
}

/// The entries of the context menu of a row.
pub open spec fn row_menu_entries(pinned: bool) -> Seq<(u32, Seq<char>)> {
    seq![
        (IDM_ROW_PASTE, "Paste"@),
        (
            IDM_ROW_PIN,
            if pinned {
                "Unpin"@
            } else {
                "Pin"@
            },
        ),
        (IDM_ROW_COPY, "Copy to clipboard"@),
        (0, ""@),
        (IDM_ROW_DELETE, "Delete this item"@),
    ]
}

/// The entries of the context menu of a row.
pub fn row_menu(pinned: bool) -> (r: Vec<MenuEntry>)
    ensures
        entry_views(r@) == row_menu_entries(pinned),
{
    let mut out: Vec<MenuEntry> = Vec::new();
    out.push(MenuEntry { id: IDM_ROW_PASTE, text: "Paste" });
    out.push(
        MenuEntry {
            id: IDM_ROW_PIN,
            text: if pinned {
                "Unpin"
            } else {
                "Pin"
            },
        },
    );
    out.push(MenuEntry { id: IDM_ROW_COPY, text: "Copy to clipboard" });
    out.push(MenuEntry { id: 0, text: "" });
    out.push(MenuEntry { id: IDM_ROW_DELETE, text: "Delete this item" });
    assert(entry_views(out@) =~= row_menu_entries(pinned));
    out
}

// ---------------------------------------------------------------------
// Messages of the list window.
// ---------------------------------------------------------------------
pub const WM_SIZE: u32 = 0x0005;

pub const WM_SETFOCUS: u32 = 0x0007;

pub const WM_KILLFOCUS: u32 = 0x0008;

pub const WM_PAINT: u32 = 0x000f;

pub const WM_ERASEBKGND: u32 = 0x0014;

pub const WM_CONTEXTMENU: u32 = 0x007b;

pub const WM_NCDESTROY: u32 = 0x0082;

pub const WM_TIMER: u32 = 0x0113;

pub const WM_VSCROLL: u32 = 0x0115;

pub const WM_LBUTTONDOWN: u32 = 0x0201;

pub const WM_LBUTTONDBLCLK: u32 = 0x0203;

pub const WM_MOUSEWHEEL: u32 = 0x020a;

/// What a message means to the list window.
#[derive(Clone, Copy, Debug, PartialEq, Eq, Structural)]
pub enum ListEvent {
    Paint,
    /// Nothing is erased: painting covers the whole window.
    Erase,
    Scroll { code: u32 },
    Wheel { delta: i32 },
    Tick,
    Press { x: i32, y: i32 },
    DoubleClick { x: i32 },
    /// The pointer in screen coordinates, or -1 and -1 from the keyboard.
    Menu { x: i32, y: i32 },
    Resize,
    FocusChange,
    /// The window is going: nothing moves any more.
    Destroy,
    /// The message is handled by default.
    Other,
}

/// What a message means to the list window.
pub open spec fn list_event_of(msg: u32, wp: u64, lp: u64) -> ListEvent {
    if msg == WM_PAINT {
        ListEvent::Paint
    } else if msg == WM_ERASEBKGND {
        ListEvent::Erase
    } else if msg == WM_VSCROLL {
        ListEvent::Scroll { code: low_of(wp) }
    } else if msg == WM_MOUSEWHEEL {
        ListEvent::Wheel { delta: signed_high_of(wp) }
    } else if msg == WM_TIMER && wp == SCROLL_TIMER_ID {
        ListEvent::Tick
    } else if msg == WM_LBUTTONDOWN {
        ListEvent::Press { x: signed_low_of(lp), y: signed_high_of(lp) }
    } else if msg == WM_LBUTTONDBLCLK {
        ListEvent::DoubleClick { x: signed_low_of(lp) }
    } else if msg == WM_CONTEXTMENU {
        ListEvent::Menu { x: signed_low_of(lp), y: signed_high_of(lp) }
    } else if msg == WM_SIZE {
        ListEvent::Resize
    } else if msg == WM_SETFOCUS || msg == WM_KILLFOCUS {
        ListEvent::FocusChange
    } else if msg == WM_NCDESTROY {
        ListEvent::Destroy
    } else {
        ListEvent::Other
    }
}

/// What a message means to the list window.
pub fn list_event(msg: u32, wp: u64, lp: u64) -> (r: ListEvent)
    ensures
        r == list_event_of(msg, wp, lp),
{
    if msg == WM_PAINT {
        ListEvent::Paint
    } else if msg == WM_ERASEBKGND {
        ListEvent::Erase
    } else if msg == WM_VSCROLL {
        ListEvent::Scroll { code: low_word(wp) }
    } else if msg == WM_MOUSEWHEEL {
        ListEvent::Wheel { delta: signed_high(wp) }
    } else if msg == WM_TIMER && wp == SCROLL_TIMER_ID {
        ListEvent::Tick
    } else if msg == WM_LBUTTONDOWN {
        ListEvent::Press { x: signed_low(lp), y: signed_high(lp) }
    } else if msg == WM_LBUTTONDBLCLK {
        ListEvent::DoubleClick { x: signed_low(lp) }
    } else if msg == WM_CONTEXTMENU {
        ListEvent::Menu { x: signed_low(lp), y: signed_high(lp) }
    } else if msg == WM_SIZE {
        ListEvent::Resize
    } else if msg == WM_SETFOCUS || msg == WM_KILLFOCUS {
        ListEvent::FocusChange
    } else if msg == WM_NCDESTROY {
        ListEvent::Destroy
    } else {
        ListEvent::Other
    }
}

/// What the list window does in answer to a message.
#[derive(Clone, Copy, Debug, PartialEq, Eq, Structural)]
pub enum ListReply {
    /// Paint the visible rows.
    Paint,
    /// Report the background as erased.
    Erased,
    /// Show the new state.
    Redraw,
    /// Nothing more.
    Quiet,
    /// Flip the pin of a row.
    TogglePin(usize),
    /// Paste the selected row.
    Paste,
    /// Open the context menu of the row at a point of the screen.
    Menu { x: i32, y: i32 },
    /// Open the context menu of the selected row.
    KeyboardMenu,
    /// Leave the message to the system.
    Default,
}

impl ListView {
    /// Takes a message in and says what to do. `client_w` and `client_h` are
    /// the size of the window, `track` is where the thumb of the scroll bar
    /// is dragged to.
    pub fn step(&mut self, event: ListEvent, client_w: i32, client_h: i32, track: i32) -> (r:
        ListReply)
        requires
            old(self).wf(),
        ensures
            final(self).wf(),
            event != ListEvent::Destroy && old(self).settled() ==> final(self).settled(),
            final(self).tops@ == old(self).tops@,
            match event {
                ListEvent::Paint => r == ListReply::Paint && same_state(*final(self), *old(self)),
                ListEvent::Erase => r == ListReply::Erased && same_state(*final(self), *old(self)),
                ListEvent::Scroll { code } => {
                    &&& r == if code == SB_THUMBTRACK || code == SB_THUMBPOSITION {
                        ListReply::Redraw
                    } else {
                        ListReply::Quiet
                    }
                    &&& final(self).view_h == old(self).view_h
                    &&& final(self).sel == old(self).sel
                    &&& scroll_command(*old(self), code) matches Some(y) ==> {
                        &&& final(self).target == old(self).clamped(y)
                        &&& final(self).animating == (final(self).scroll_y != final(self).target)
                        &&& final(self).scroll_y == old(self).scroll_y
                    }
                    &&& r == ListReply::Redraw ==> {
                        &&& final(self).scroll_y == old(self).clamped(track as int)
                        &&& final(self).target == final(self).scroll_y
                        &&& !final(self).animating
                    }
                    &&& code > SB_BOTTOM ==> same_state(*final(self), *old(self))
                },
                ListEvent::Wheel { delta } => {
                    &&& r == ListReply::Quiet
                    &&& final(self).view_h == old(self).view_h
                    &&& final(self).sel == old(self).sel
                    &&& final(self).scroll_y == old(self).scroll_y
                    &&& final(self).target == old(self).clamped(
                        old(self).target + wheel_shift(delta as int),
                    )
                    &&& final(self).animating == (final(self).scroll_y != final(self).target)
                },
                ListEvent::Tick => {
                    &&& r == if old(self).scroll_y != old(self).target {
                        ListReply::Redraw
                    } else {
                        ListReply::Quiet
                    }
                    &&& final(self).view_h == old(self).view_h
                    &&& final(self).sel == old(self).sel
                    &&& final(self).target == old(self).target
                    &&& final(self).scroll_y == eased(
                        old(self).scroll_y as int,
                        old(self).target as int,
                    )
                    &&& final(self).animating == (old(self).animating && final(self).scroll_y
                        != final(self).target)
                },
                ListEvent::Press { x, y } => {
                    let on_row = 0 <= y + old(self).scroll_y < old(self).content();
                    &&& final(self).view_h == old(self).view_h
                    &&& !on_row ==> r == ListReply::Quiet && same_state(*final(self), *old(self))
                    &&& on_row && left_of_pin(x as int, client_w as int) ==> {
                        &&& r == ListReply::Redraw
                        &&& 0 <= final(self).sel < old(self).rows()
                        &&& old(self).tops@[final(self).sel as int] <= y + old(self).scroll_y
                            < old(self).tops@[final(self).sel + 1]
                        &&& final(self).scroll_y == old(self).position_showing(
                            final(self).sel as int,
                        )
                        &&& final(self).scroll_y == old(self).scroll_y ==> final(self).target
                            == old(self).target && final(self).animating == old(self).animating
                        &&& final(self).scroll_y != old(self).scroll_y ==> final(self).target
                            == final(self).scroll_y && !final(self).animating
                    }
                    &&& on_row && !left_of_pin(x as int, client_w as int) ==> {
                        &&& same_state(*final(self), *old(self))
                        &&& r matches ListReply::TogglePin(k) && k < old(self).rows()
                            && old(self).tops@[k as int] <= y + old(self).scroll_y
                            < old(self).tops@[k + 1]
                    }
                },
                ListEvent::DoubleClick { x } => {
                    &&& same_state(*final(self), *old(self))
                    &&& r == if left_of_pin(x as int, client_w as int) {
                        ListReply::Paste
                    } else {
                        ListReply::Quiet
                    }
                },
                ListEvent::Menu { x, y } => {
                    &&& same_state(*final(self), *old(self))
                    &&& r == if x == -1 && y == -1 {
                        ListReply::KeyboardMenu
                    } else {
                        ListReply::Menu { x, y }
                    }
                },
                ListEvent::Resize => {
                    &&& r == ListReply::Redraw
                    &&& final(self).view_h == if client_h < 0 {
                        0
                    } else {
                        client_h as int
                    }
                    &&& final(self).sel == old(self).sel
                    &&& final(self).scroll_y == final(self).clamped(old(self).scroll_y as int)
                    &&& final(self).target == final(self).clamped(old(self).target as int)
                    &&& final(self).animating == old(self).animating
                },
                ListEvent::FocusChange => r == ListReply::Redraw && same_state(
                    *final(self),
                    *old(self),
                ),
                ListEvent::Destroy => {
                    &&& r == ListReply::Default
                    &&& final(self).view_h == old(self).view_h
                    &&& final(self).sel == old(self).sel
                    &&& final(self).scroll_y == old(self).scroll_y
                    &&& final(self).target == old(self).target
                    &&& !final(self).animating
                },
                ListEvent::Other => r == ListReply::Default && same_state(
                    *final(self),
                    *old(self),
                ),
            },
    {
        match event {
            ListEvent::Paint => ListReply::Paint,
            ListEvent::Erase => ListReply::Erased,
            ListEvent::Scroll { code } => {
                self.handle_vscroll(code, track);
                if code == SB_THUMBTRACK || code == SB_THUMBPOSITION {
                    ListReply::Redraw
                } else {
                    ListReply::Quiet
                }
            },
            ListEvent::Wheel { delta } => {
                self.wheel(delta);
                ListReply::Quiet
            },
            ListEvent::Tick => {
                if self.anim_tick() {
                    ListReply::Redraw
                } else {
                    ListReply::Quiet
                }
            },
            ListEvent::Press { x, y } => match click(self, x, y, client_w) {
                ListClick::Nothing => ListReply::Quiet,
                ListClick::TogglePin(k) => ListReply::TogglePin(k),
                ListClick::Select(k) => {
                    self.list_set_sel(k as i32);
                    ListReply::Redraw
                },
            },
            ListEvent::DoubleClick { x } => if double_click_pastes(x, client_w) {
                ListReply::Paste
            } else {
                ListReply::Quiet
            },
            ListEvent::Menu { x, y } => if x == -1 && y == -1 {
                ListReply::KeyboardMenu
            } else {
                ListReply::Menu { x, y }
            },
            ListEvent::Resize => {
                self.resize(client_h);
                ListReply::Redraw
            },
            ListEvent::FocusChange => ListReply::Redraw,
            ListEvent::Destroy => {
                self.animating = false;
                ListReply::Default
            },
            ListEvent::Other => ListReply::Default,
        }
    }
}

/// Whether two states are the same.
pub open spec fn same_state(a: ListView, b: ListView) -> bool {
    &&& a.tops@ == b.tops@
    &&& a.view_h == b.view_h
    &&& a.scroll_y == b.scroll_y
    &&& a.target == b.target
    &&& a.sel == b.sel
    &&& a.animating == b.animating
}

// ---------------------------------------------------------------------
// The list in pixels.
// ---------------------------------------------------------------------
/// Rows stand below each other without gaps: rows of images are 102 pixels
/// high, all others 34.
pub proof fn law_row_heights(hist: Seq<ClipItem>, rows: Seq<FilterRow>, k: int)
    requires
        0 <= k < rows.len(),
        rows[k].hist_index < hist.len(),
    ensures
        row_top(hist, rows, 0) == 0,
        hist[rows[k].hist_index as int].kind == ItemType::Image ==> row_top(hist, rows, k + 1)
            == row_top(hist, rows, k) + 102,
        hist[rows[k].hist_index as int].kind != ItemType::Image ==> row_top(hist, rows, k + 1)
            == row_top(hist, rows, k) + 34,
{
}

/// The list scrolls as far as what it holds is higher than what it shows, and
/// scrolling goes to the position asked for, or to the nearest end.
pub proof fn law_scroll_range(list: ListView, y: int, z: int)
    requires
        list.wf(),
    ensures
        list.content() == list.tops@[list.rows()],
        list.tops@[list.rows()] <= list.view_h ==> list.limit() == 0,
        list.tops@[list.rows()] > list.view_h ==> list.limit() + list.view_h
            == list.tops@[list.rows()],
        0 <= list.clamped(y) <= list.limit(),
        0 <= y <= list.limit() ==> list.clamped(y) == y,
        0 <= z <= list.limit() ==> distance(list.clamped(y), y) <= distance(z, y),
        y <= z ==> list.clamped(y) <= list.clamped(z),
{
}

/// Each step of the animation goes a quarter of the way that is left, in whole
/// pixels, but at least one; and as far upward as it would go downward.
pub proof fn law_easing_is_a_quarter(cur: int, target: int, q: int)
    ensures
        eased(cur, cur) == cur,
        q >= 1 && 4 * q <= target - cur < 4 * q + 4 ==> eased(cur, target) == cur + q,
        0 < target - cur < 4 ==> eased(cur, target) == cur + 1,
        eased(-cur, -target) == -eased(cur, target),
{
}

/// A row that is in view does not move the list; one above it is put at the top
/// of the view, and one below it at the bottom.
pub proof fn law_shown_row_moves_least(list: ListView, idx: int)
    requires
        list.wf(),
        0 <= idx < list.rows(),
    ensures
        list.scroll_y <= list.tops@[idx] && list.tops@[idx + 1] <= list.scroll_y + list.view_h
            ==> list.position_showing(idx) == list.scroll_y,
        list.tops@[idx] < list.scroll_y ==> list.position_showing(idx) == list.tops@[idx],
        list.tops@[idx] >= list.scroll_y && list.tops@[idx + 1] > list.scroll_y + list.view_h
            ==> list.position_showing(idx) + list.view_h == list.tops@[idx + 1],
{
}

/// A row that exists is selected; one past the end selects the last, and one
/// before the start none.
pub proof fn law_selection(list: ListView, idx: int)
    requires
        list.wf(),
    ensures
        0 <= idx < list.tops@.len() - 1 ==> list.selection_for(idx) == idx,
        idx >= list.tops@.len() - 1 ==> list.selection_for(idx) == list.tops@.len() - 2,
        idx < 0 ==> list.selection_for(idx) == -1,
        list.rows() == list.tops@.len() - 1,
{
}

/// A notch of the wheel moves the list by 60 pixels, up for a turn away from
/// the user; parts of a notch move it in proportion, and turning back undoes
/// it.
pub proof fn law_wheel(delta: int, n: int)
    ensures
        wheel_shift(120 * n) == -60 * n,
        delta >= 0 ==> -2 * wheel_shift(delta) <= delta < -2 * wheel_shift(delta) + 2,
        wheel_shift(-delta) == -wheel_shift(delta),
{
}

/// The commands of the scroll bar by their codes: a row or a page up or down,
/// the start and the end.
pub proof fn law_scroll_commands(list: ListView, code: u32)
    ensures
        scroll_command(list, 0) == Some(list.target - 34),
        scroll_command(list, 1) == Some(list.target + 34),
        scroll_command(list, 2) == Some(list.target - list.view_h),
        scroll_command(list, 3) == Some(list.target + list.view_h),
        scroll_command(list, 6) == Some(0int),
        scroll_command(list, 7) == Some(list.limit()),
        code == 4 || code == 5 || code > 7 ==> scroll_command(list, code) is None,
        SB_THUMBPOSITION == 4,
        SB_THUMBTRACK == 5,
        SB_BOTTOM == 7,
{
}

/// The pins are in the last 22 pixels of the list.
pub proof fn law_pin_area(x: int, client_w: int)
    ensures
        left_of_pin(x, client_w) == (x + 22 < client_w),
{
}

/// Where a row is shown, and that it is where any of its pixels are in view.
pub proof fn law_rows_in_view(list: ListView, k: int, y: int)
    requires
        list.wf(),
        0 <= k < list.rows(),
    ensures
        list.shown_top(k) + list.scroll_y == list.tops@[k],
        list.is_shown(k) == (list.tops@[k + 1] > list.scroll_y && list.tops@[k] < list.scroll_y
            + list.view_h),
        0 <= y < list.view_h && list.tops@[k] <= y + list.scroll_y < list.tops@[k + 1]
            ==> list.is_shown(k),
{
}

/// The menu of a row: each entry does what it says, and the separator nothing.
pub proof fn law_row_menu(pinned: bool)
    ensures
        ({
            let menu = row_menu_entries(pinned);
            &&& menu.len() == 5
            &&& menu[0].1 == "Paste"@ && row_command_of(menu[0].0) == RowCommand::Paste
            &&& row_command_of(menu[1].0) == RowCommand::TogglePin
            &&& pinned ==> menu[1].1 == "Unpin"@
            &&& !pinned ==> menu[1].1 == "Pin"@
            &&& menu[2].1 == "Copy to clipboard"@ && row_command_of(menu[2].0) == RowCommand::Copy
            &&& menu[3].1 == ""@ && row_command_of(menu[3].0) == RowCommand::Nothing
            &&& menu[4].1 == "Delete this item"@ && row_command_of(menu[4].0) == RowCommand::Delete
        }),
{
}

/// The commands of the row menu by their numbers; no other number is one.
pub proof fn law_row_commands(id: u32)
    ensures
        row_command_of(200) == RowCommand::Paste,
        row_command_of(201) == RowCommand::TogglePin,
        row_command_of(202) == RowCommand::Copy,
        row_command_of(203) == RowCommand::Delete,
        id < 200 || id > 203 ==> row_command_of(id) == RowCommand::Nothing,
{
}

/// The messages of the list by their numbers.
pub proof fn law_list_messages(msg: u32, wp: u64, lp: u64)
    ensures
        list_event_of(0x0f, wp, lp) == ListEvent::Paint,
        list_event_of(0x14, wp, lp) == ListEvent::Erase,
        list_event_of(0x115, wp, lp) == (ListEvent::Scroll { code: low_of(wp) }),
        list_event_of(0x20a, wp, lp) == (ListEvent::Wheel { delta: signed_high_of(wp) }),
        list_event_of(0x113, 1, lp) == ListEvent::Tick,
        wp != 1 ==> list_event_of(0x113, wp, lp) == ListEvent::Other,
        list_event_of(0x201, wp, lp) == (ListEvent::Press {
            x: signed_low_of(lp),
            y: signed_high_of(lp),
        }),
        list_event_of(0x203, wp, lp) == (ListEvent::DoubleClick { x: signed_low_of(lp) }),
        list_event_of(0x7b, wp, lp) == (ListEvent::Menu {
            x: signed_low_of(lp),
            y: signed_high_of(lp),
        }),
        list_event_of(0x05, wp, lp) == ListEvent::Resize,
        list_event_of(0x07, wp, lp) == ListEvent::FocusChange,
        list_event_of(0x08, wp, lp) == ListEvent::FocusChange,
        list_event_of(0x82, wp, lp) == ListEvent::Destroy,
        msg != 0x0f && msg != 0x14 && msg != 0x115 && msg != 0x20a && msg != 0x113 && msg != 0x201
            && msg != 0x203 && msg != 0x7b && msg != 0x05 && msg != 0x07 && msg != 0x08 && msg
            != 0x82 ==> list_event_of(msg, wp, lp) == ListEvent::Other,
{
}

/// Two lists in the same state agree in everything.
pub proof fn law_same_state(a: ListView, b: ListView)
    ensures
        same_state(a, b) == (a.tops@ == b.tops@ && a.view_h == b.view_h && a.scroll_y == b.scroll_y
            && a.target == b.target && a.sel == b.sel && a.animating == b.animating),
        a.settled() == (a.animating || a.scroll_y == a.target),
{
}

/// A menu is its entries, each with its number and its text.
pub proof fn law_menu_is_its_entries(entries: Seq<MenuEntry>, i: int)
    requires
        0 <= i < entries.len(),
    ensures
        entry_views(entries).len() == entries.len(),
        entry_views(entries)[i] == (entries[i].id, entries[i].text@),
{
}

/// The scroll bar spans the content, and its thumb is at the end of it where the
/// list is.
pub proof fn law_scroll_bar(list: ListView)
    requires
        list.wf(),
    ensures
        list.rows() > 0 ==> list.bar().0 + 1 == list.tops@[list.rows()],
        list.rows() == 0 ==> list.bar().0 == 0,
        list.bar().1 == list.view_h,
        list.bar().2 == list.scroll_y,
        list.content() > list.view_h ==> (list.scroll_y == list.limit()) == (list.bar().2
            + list.bar().1 == list.bar().0 + 1),
{
    if list.rows() > 0 {
        assert(list.tops@[0] + TEXT_ITEM_HEIGHT <= list.tops@[list.rows()]);
    }
}

} // verus!
