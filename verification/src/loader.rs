//! Where the next batch of a stored dataset starts.
//!
//! A loader walks through a table of positions in windows of a given size.
//! When a window would reach the end of the table it starts over: at the
//! first row, or, where the loader shuffles, at a random row among the first
//! ones.

use vstd::prelude::*;
use crate::rules::random_below;

verus! {

/// The place of a loader in its table.
#[derive(Clone, Copy, Debug, PartialEq, Eq, Structural)]
pub struct BatchCursor {
    /// The row at which the next window starts.
    pub idx: usize,
    /// The number of rows in the table.
    pub length: usize,
    /// Whether a new pass starts at a random row.
    pub do_shuffle: bool,
}

/// Whether a window of `size` rows from `idx` reaches the end of a table of
/// `length` rows.
pub open spec fn reaches_end(idx: usize, size: usize, length: usize) -> bool {
    idx + size >= length
}

/// A sum kept inside the range of `usize`.
pub open spec fn capped_sum(a: usize, b: usize) -> usize {
    if a + b > usize::MAX {
        usize::MAX
    } else {
        (a + b) as usize
    }
}

impl BatchCursor {
    /// A cursor at the first row of a table, without shuffling.
    pub fn new(length: usize) -> (cursor: BatchCursor)
        ensures
            cursor == (BatchCursor { idx: 0, length, do_shuffle: false }),
    {
        BatchCursor { idx: 0, length, do_shuffle: false }
    }

    /// The row at which the next window starts.
    pub fn pos(&self) -> (at: Option<usize>)
        ensures
            at == Some(self.idx),
    {
        Some(self.idx)
    }

    /// The number of rows in the table.
    pub fn len(&self) -> (rows: Option<usize>)
        ensures
            rows == Some(self.length),
    {
        Some(self.length)
    }

    /// Gives the row at which the next window of `size` rows starts and
    /// moves the cursor behind that window. A window that would reach the
    /// end starts over. A shuffling loader cannot draw a start for an empty
    /// window.
    pub fn next_window(&mut self, size: usize) -> (offset: usize)
        requires
            size > 0 || !old(self).do_shuffle,
        ensures
            !reaches_end(old(self).idx, size, old(self).length) ==> offset == old(self).idx,
            reaches_end(old(self).idx, size, old(self).length) && !old(self).do_shuffle ==> offset
                == 0,
            reaches_end(old(self).idx, size, old(self).length) && old(self).do_shuffle ==> offset
                < size,
            final(self).idx == capped_sum(offset, size),
            final(self).length == old(self).length,
            final(self).do_shuffle == old(self).do_shuffle,
    {
        let wraps = match self.idx.checked_add(size) {
            Some(end) => end >= self.length,
            None => true,
        };
        if wraps {
            if self.do_shuffle {
                self.idx = random_below(size as u64) as usize;
            } else {
                self.idx = 0;
            }
        }
        let offset = self.idx;
        self.idx = match offset.checked_add(size) {
            Some(end) => end,
            None => usize::MAX,
        };
        offset
    }
}

} // verus!
