//! The state of a scrolling list: which of its entries is selected, and
//! from which entry on it is shown in a window of a given height.
use vstd::prelude::*;

verus! {

/// Selection and scroll position of a list of `total` entries shown
/// `height` at a time (a height of zero: not laid out yet).
#[derive(Clone, Copy, Debug, PartialEq, Eq)]
pub struct ScrollListState {
    pub selected: usize,
    pub offset: usize,
    pub total: usize,
    pub height: usize,
}

/// The first shown entry after a move of the selection to `selected`: kept
/// where it was when the selection stays in view, otherwise moved just far
/// enough to bring it into view.
pub open spec fn fit_offset(selected: int, offset: int, height: int) -> int {
    if selected < offset {
        selected
    } else if height > 0 && selected >= offset + height {
        selected + 1 - height
    } else {
        offset
    }
}

impl ScrollListState {
    /// The selection lies within the list and within the shown window.
    pub open spec fn wf(self) -> bool {
        &&& self.total == 0 ==> self.selected == 0 && self.offset == 0
        &&& self.total > 0 ==> self.selected < self.total
        &&& self.offset <= self.selected
        &&& self.height > 0 ==> self.selected < self.offset + self.height
    }

    /// The state with the selection moved to `selected` and the window moved
    /// to keep it in view.
    pub open spec fn moved(self, selected: int) -> ScrollListState {
        ScrollListState {
            selected: selected as usize,
            offset: fit_offset(selected, self.offset as int, self.height as int) as usize,
            ..self
        }
    }

    /// After selecting the next entry, if there is one.
    pub open spec fn next_spec(self) -> ScrollListState {
        if self.selected + 1 < self.total {
            self.moved(self.selected + 1)
        } else {
            self
        }
    }

    /// After selecting the previous entry, if there is one.
    pub open spec fn prev_spec(self) -> ScrollListState {
        if self.selected > 0 {
            self.moved(self.selected - 1)
        } else {
            self
        }
    }

    /// After selecting the entry a window's height further down, or the last.
    pub open spec fn next_page_spec(self) -> ScrollListState {
        if self.total == 0 {
            self
        } else if self.selected + self.height < self.total {
            self.moved(self.selected + self.height)
        } else {
            self.moved(self.total - 1)
        }
    }

    /// After selecting the entry a window's height further up, or the first.
    pub open spec fn prev_page_spec(self) -> ScrollListState {
        if self.selected > self.height {
            self.moved(self.selected - self.height)
        } else {
            self.moved(0)
        }
    }

    /// After selecting the first entry.
    pub open spec fn first_spec(self) -> ScrollListState {
        self.moved(0)
    }

    /// After selecting the last entry.
    pub open spec fn last_spec(self) -> ScrollListState {
        if self.total > 0 {
            self.moved(self.total - 1)
        } else {
            self
        }
    }

    /// After laying the list out in a window of `height` entries.
    pub open spec fn height_spec(self, height: usize) -> ScrollListState {
        ScrollListState { height, ..self }.moved(self.selected as int)
    }

    /// A list of `total` entries, the first selected, not laid out yet.
    pub open spec fn new_spec(total: usize) -> ScrollListState {
        ScrollListState { selected: 0, offset: 0, total, height: 0 }
    }

    /// A list of `total` entries, the first selected, not laid out yet.
    pub fn new(total: usize) -> (r: ScrollListState)
        ensures
            r.wf(),
            r == Self::new_spec(total),
    {
        ScrollListState { selected: 0, offset: 0, total, height: 0 }
    }

    /// Moves the selection to `selected` and the window to keep it in view.
    fn move_to(&mut self, selected: usize)
        requires
            old(self).total == 0 ==> selected == 0,
            old(self).total > 0 ==> selected < old(self).total,
        ensures
            final(self).wf(),
            *final(self) == old(self).moved(selected as int),
    {
        self.selected = selected;
        if selected < self.offset {
            self.offset = selected;
        } else if self.height > 0 && selected - self.offset >= self.height {
            self.offset = selected + 1 - self.height;
        }
    }

    /// Selects the next entry, if there is one.
    pub fn select_next(&mut self)
        requires
            old(self).wf(),
        ensures
            final(self).wf(),
            *final(self) == old(self).next_spec(),
    {
        if self.selected + 1 < self.total {
            let s = self.selected + 1;
            self.move_to(s);
        }
    }

    /// Selects the previous entry, if there is one.
    pub fn select_prev(&mut self)
        requires
            old(self).wf(),
        ensures
            final(self).wf(),
            *final(self) == old(self).prev_spec(),
    {
        if self.selected > 0 {
            let s = self.selected - 1;
            self.move_to(s);
        }
    }

    /// Selects the entry a window's height further down, or the last one.
    pub fn select_next_page(&mut self)
        requires
            old(self).wf(),
        ensures
            final(self).wf(),
            *final(self) == old(self).next_page_spec(),
    {
        if self.total > 0 {
            let s = if self.height < self.total - self.selected {
                self.selected + self.height
            } else {
                self.total - 1
            };
            self.move_to(s);
        }
    }

    /// Selects the entry a window's height further up, or the first one.
    pub fn select_prev_page(&mut self)
        requires
            old(self).wf(),
        ensures
            final(self).wf(),
            *final(self) == old(self).prev_page_spec(),
    {
        let s = if self.selected > self.height {
            self.selected - self.height
        } else {
            0
        };
        self.move_to(s);
    }

    /// Selects the first entry.
    pub fn select_first(&mut self)
        requires
            old(self).wf(),
        ensures
            final(self).wf(),
            *final(self) == old(self).first_spec(),
    {
        self.move_to(0);
    }

    /// Selects the last entry.
    pub fn select_last(&mut self)
        requires
            old(self).wf(),
        ensures
            final(self).wf(),
            *final(self) == old(self).last_spec(),
    {
        if self.total > 0 {
            let s = self.total - 1;
            self.move_to(s);
        }
    }

    /// Lays the list out in a window of `height` entries, scrolling it to
    /// keep the selection in view.
    pub fn set_height(&mut self, height: usize)
        requires
            old(self).wf(),
        ensures
            final(self).wf(),
            *final(self) == old(self).height_spec(height),
    {
        self.height = height;
        let s = self.selected;
        self.move_to(s);
    }
}

} // verus!
