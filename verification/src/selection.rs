//! The text-selection state: a half-open region of source offsets with a
//! fixed tail and a moving head.
//!
//! `start <= end` always holds; `reversed` records which endpoint is the head
//! being dragged, so extending a selection backward swaps the roles without
//! losing the anchored end.  `pending` is true while a drag is in progress.

use vstd::prelude::*;

verus! {

/// A half-open selected region `start..end` of source byte offsets.
#[derive(Clone, Copy, Debug, PartialEq, Eq, Structural)]
pub struct Selection {
    /// Low endpoint of the selected region.
    pub start: usize,
    /// High endpoint of the selected region (one past the last byte).
    pub end: usize,
    /// True when the head (the dragged endpoint) is `start`.
    pub reversed: bool,
    /// True while a drag is in progress.
    pub pending: bool,
}

impl Selection {
    /// The selection's invariant: the region is never inverted.
    pub open spec fn wf(self) -> bool {
        self.start <= self.end
    }

    /// The fixed endpoint of the selection.
    pub open spec fn tail_spec(self) -> usize {
        if self.reversed {
            self.end
        } else {
            self.start
        }
    }

    /// The moving endpoint of the selection.
    pub open spec fn head_spec(self) -> usize {
        if self.reversed {
            self.start
        } else {
            self.end
        }
    }

    /// Returns the fixed endpoint: the one the drag does not move.
    pub fn tail(&self) -> (t: usize)
        ensures
            t == self.tail_spec(),
    {
        if self.reversed {
            self.end
        } else {
            self.start
        }
    }

    /// Moves the head to `head`, keeping the tail anchored.  The region stays
    /// ordered: dragging past the tail swaps which endpoint is the head.
    pub fn set_head(&mut self, head: usize)
        requires
            old(self).wf(),
        ensures
            final(self).wf(),
            final(self).tail_spec() == old(self).tail_spec(),
            final(self).head_spec() == head,
            final(self).reversed == (head < old(self).tail_spec()),
            final(self).start == if head < old(self).tail_spec() {
                head
            } else {
                old(self).tail_spec()
            },
            final(self).end == if head < old(self).tail_spec() {
                old(self).tail_spec()
            } else {
                head
            },
            final(self).pending == old(self).pending,
    {
        if head < self.tail() {
            if !self.reversed {
                self.end = self.start;
                self.reversed = true;
            }
            self.start = head;
        } else {
            if self.reversed {
                self.start = self.end;
                self.reversed = false;
            }
            self.end = head;
        }
    }
}

impl Default for Selection {
    /// An empty, non-pending caret at offset zero.
    fn default() -> (s: Selection)
        ensures
            s.start == 0,
            s.end == 0,
            !s.reversed,
            !s.pending,
            s.wf(),
    {
        Selection { start: 0, end: 0, reversed: false, pending: false }
    }
}

} // verus!
