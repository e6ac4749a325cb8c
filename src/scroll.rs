use vstd::prelude::*;

verus! {

/// Viewport of one pane: the first visible row, the highlighted row, and
/// whether the pane follows the newest row.
pub struct ScrollState {
    pub offset: usize,
    pub selected: usize,
    pub auto_scroll: bool,
}

/// `a - b`, floored at zero.
pub open spec fn sat_sub(a: int, b: int) -> int {
    if a >= b { a - b } else { 0 }
}

pub open spec fn min(a: int, b: int) -> int {
    if a <= b { a } else { b }
}

impl ScrollState {
    /// State after moving the selection `amount` rows up.
    pub open spec fn after_select_up(self, amount: int) -> ScrollState {
        let sel = sat_sub(self.selected as int, amount);
        ScrollState {
            offset: if sel < self.offset { sel as usize } else { self.offset },
            selected: sel as usize,
            auto_scroll: false,
        }
    }

    /// State after moving the selection `amount` rows down in a pane showing
    /// `visible` of `total` rows.
    pub open spec fn after_select_down(self, amount: int, total: int, visible: int) -> ScrollState {
        if total == 0 {
            self
        } else {
            let sel = min(self.selected + amount, total - 1);
            ScrollState {
                offset: if sel >= self.offset + visible {
                    sat_sub(sel, sat_sub(visible, 1)) as usize
                } else {
                    self.offset
                },
                selected: sel as usize,
                auto_scroll: sel == total - 1,
            }
        }
    }

    pub open spec fn after_select_top(self) -> ScrollState {
        ScrollState { offset: 0, selected: 0, auto_scroll: false }
    }

    /// State after jumping to the last of `total` rows; this re-arms following.
    pub open spec fn after_select_bottom(self, total: int, visible: int) -> ScrollState {
        if total == 0 {
            self
        } else {
            ScrollState {
                offset: sat_sub(total, visible) as usize,
                selected: (total - 1) as usize,
                auto_scroll: true,
            }
        }
    }

    /// State after the per-redraw adjustment: a following pane is pinned to
    /// the last row, a pane moved by hand is left where it is.
    pub open spec fn after_auto_follow(self, total: int, visible: int) -> ScrollState {
        if self.auto_scroll && total > 0 {
            ScrollState {
                offset: sat_sub(total, visible) as usize,
                selected: (total - 1) as usize,
                auto_scroll: true,
            }
        } else {
            self
        }
    }

    /// State after bringing the position back inside a pane of `total` rows.
    pub open spec fn after_clamp(self, total: int, visible: int) -> ScrollState {
        if total == 0 {
            ScrollState { offset: 0, selected: 0, auto_scroll: self.auto_scroll }
        } else {
            ScrollState {
                offset: min(self.offset as int, sat_sub(total, visible)) as usize,
                selected: min(self.selected as int, total - 1) as usize,
                auto_scroll: self.auto_scroll,
            }
        }
    }

    /// State after a redraw at each `(total, visible)` of `sizes`, in order.
    pub open spec fn follow_all(self, sizes: Seq<(usize, usize)>) -> ScrollState
        decreases sizes.len(),
    {
        if sizes.len() == 0 {
            self
        } else {
            let last = sizes.last();
            self.follow_all(sizes.drop_last()).after_auto_follow(last.0 as int, last.1 as int)
        }
    }

    /// After a jump to the bottom the pane follows, and keeps following
    /// through any run of redraws: each one with rows pins the selection to
    /// the last row.
    pub proof fn law_bottom_follows(self, total: usize, visible: usize, sizes: Seq<(usize, usize)>)
        requires
            total > 0,
        ensures
            self.after_select_bottom(total as int, visible as int).auto_scroll,
            self.after_select_bottom(total as int, visible as int).follow_all(sizes).auto_scroll,
            sizes.len() > 0 && sizes.last().0 > 0 ==> self.after_select_bottom(total as int, visible as int).follow_all(
                sizes,
            ).selected == sizes.last().0 - 1,
        decreases sizes.len(),
    {
        if sizes.len() > 0 {
            self.law_bottom_follows(total, visible, sizes.drop_last());
        }
    }

    /// A fresh pane: at the top, following.
    pub open spec fn new_spec() -> ScrollState {
        ScrollState { offset: 0, selected: 0, auto_scroll: true }
    }

    pub fn new() -> (r: Self)
        ensures
            r == ScrollState::new_spec(),
    {
        Self { offset: 0, selected: 0, auto_scroll: true }
    }

    pub fn select_up(&mut self, amount: usize)
        ensures
            *final(self) == old(self).after_select_up(amount as int),
            final(self).offset <= final(self).selected,
    {
        self.auto_scroll = false;
        self.selected = self.selected.saturating_sub(amount);
        if self.selected < self.offset {
            self.offset = self.selected;
        }
    }

    pub fn select_down(&mut self, amount: usize, total: usize, visible: usize)
        ensures
            *final(self) == old(self).after_select_down(amount as int, total as int, visible as int),
            total > 0 ==> final(self).selected < total,
    {
        if total == 0 {
            return;
        }
        self.selected = self.selected.saturating_add(amount);
        if self.selected > total - 1 {
            self.selected = total - 1;
        }
        if self.selected >= self.offset && self.selected - self.offset >= visible {
            self.offset = self.selected.saturating_sub(visible.saturating_sub(1));
        }
        self.auto_scroll = self.selected == total - 1;
    }

    pub fn select_top(&mut self)
        ensures
            *final(self) == old(self).after_select_top(),
    {
        self.auto_scroll = false;
        self.selected = 0;
        self.offset = 0;
    }

    pub fn select_bottom(&mut self, total: usize, visible: usize)
        ensures
            *final(self) == old(self).after_select_bottom(total as int, visible as int),
    {
        if total == 0 {
            return;
        }
        self.auto_scroll = true;
        self.selected = total - 1;
        self.offset = total.saturating_sub(visible);
    }

    pub fn clamp(&mut self, total: usize, visible: usize)
        ensures
            *final(self) == old(self).after_clamp(total as int, visible as int),
    {
        if total == 0 {
            self.selected = 0;
            self.offset = 0;
        } else {
            if self.selected > total - 1 {
                self.selected = total - 1;
            }
            let bound = total.saturating_sub(visible);
            if self.offset > bound {
                self.offset = bound;
            }
        }
    }

    pub fn auto_follow(&mut self, total: usize, visible: usize)
        ensures
            *final(self) == old(self).after_auto_follow(total as int, visible as int),
    {
        if self.auto_scroll && total > 0 {
            self.selected = total - 1;
            self.offset = total.saturating_sub(visible);
        }
    }
}

} // verus!
