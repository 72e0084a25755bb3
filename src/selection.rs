//! The selected entry of a tile set or a palette, as a chooser keeps it.

use vstd::prelude::*;

verus! {

/// `v` limited to `lo..=hi`.
pub open spec fn clamp(v: int, lo: int, hi: int) -> int {
    if v < lo {
        lo
    } else if v > hi {
        hi
    } else {
        v
    }
}

/// The selected index and the number of entries to choose from.
pub struct SelectionModel {
    pub selected: nat,
    pub len: nat,
}

/// An index into a list of `len` entries, always within it.
#[derive(Clone, Copy, Debug)]
pub struct Selection {
    selected: usize,
    len: usize,
}

impl View for Selection {
    type V = SelectionModel;

    closed spec fn view(&self) -> SelectionModel {
        SelectionModel { selected: self.selected as nat, len: self.len as nat }
    }
}

impl Selection {
    /// The index lies within the list.
    pub open spec fn wf(&self) -> bool {
        self@.selected < self@.len
    }

    /// Selects the first of `len` entries.
    pub fn new(len: usize) -> (s: Selection)
        requires
            len > 0,
        ensures
            s.wf(),
            s@ == (SelectionModel { selected: 0, len: len as nat }),
    {
        Selection { selected: 0, len }
    }

    /// The selected index.
    pub fn selected(&self) -> (i: usize)
        ensures
            i == self@.selected,
    {
        self.selected
    }

    /// The number of entries.
    pub fn len(&self) -> (n: usize)
        ensures
            n == self@.len,
    {
        self.len
    }

    /// Selects `index`, or the last entry where `index` lies past it.
    pub fn set_selected(&mut self, index: usize)
        requires
            old(self).wf(),
        ensures
            final(self).wf(),
            final(self)@ == (SelectionModel {
                selected: clamp(index as int, 0, old(self)@.len - 1) as nat,
                len: old(self)@.len,
            }),
    {
        if index >= self.len {
            self.selected = self.len - 1;
        } else {
            self.selected = index;
        }
    }

    /// Moves the selection `delta` entries on (back where negative), stopping
    /// at the first and the last entry.
    pub fn move_selected(&mut self, delta: i32)
        requires
            old(self).wf(),
        ensures
            final(self).wf(),
            final(self)@ == (SelectionModel {
                selected: clamp(old(self)@.selected + delta, 0, old(self)@.len - 1) as nat,
                len: old(self)@.len,
            }),
    {
        if delta < 0 {
            let back = (0 - (delta as i64)) as u64;
            if back >= self.selected as u64 {
                self.selected = 0;
            } else {
                self.selected = self.selected - back as usize;
            }
        } else {
            let on = delta as u64;
            let room = (self.len - 1 - self.selected) as u64;
            if on >= room {
                self.selected = self.len - 1;
            } else {
                self.selected = self.selected + on as usize;
            }
        }
    }
}

} // verus!
