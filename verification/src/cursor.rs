//! A position-tracking, backtrackable view over a fixed sequence.
//!
//! Every grammar rule of the parser saves the position, speculatively
//! consumes elements, and restores the position when the rule does not
//! match; the cursor is the sole lookahead and rewind mechanism.

use vstd::prelude::*;

verus! {

/// A fixed, immutable sequence of `T` together with a mutable position in
/// `[0, length]`.  No element is ever changed or removed.
pub struct VecCursor<T> {
    inner: Vec<T>,
    position: usize,
}

impl<T> VecCursor<T> {
    /// The fixed sequence under the cursor.
    pub closed spec fn items(&self) -> Seq<T> {
        self.inner@
    }

    /// The current position.
    pub closed spec fn pos(&self) -> int {
        self.position as int
    }

    pub open spec fn wf(&self) -> bool {
        0 <= self.pos() <= self.items().len()
    }

    pub fn new(inner: Vec<T>) -> (r: Self)
        ensures
            r.items() == inner@,
            r.pos() == 0,
            r.wf(),
    {
        Self { inner, position: 0 }
    }

    /// Returns the element at the current position and steps past it; at the
    /// end it returns `None` and stays put.
    pub fn next(&mut self) -> (r: Option<&T>)
        requires
            old(self).wf(),
        ensures
            final(self).items() == old(self).items(),
            final(self).wf(),
            old(self).pos() < old(self).items().len() ==> {
                &&& final(self).pos() == old(self).pos() + 1
                &&& r matches Some(v) && *v == old(self).items()[old(self).pos()]
            },
            old(self).pos() >= old(self).items().len() ==> final(self).pos() == old(self).pos()
                && r is None,
    {
        if self.position >= self.inner.len() {
            return None;
        }
        let p = self.position;
        self.position = p + 1;
        Some(&self.inner[p])
    }

    /// Undoes one `next`: steps back one position and returns the element
    /// now under the cursor; at position 0 it returns `None` and stays put.
    pub fn prev(&mut self) -> (r: Option<&T>)
        requires
            old(self).wf(),
        ensures
            final(self).items() == old(self).items(),
            final(self).wf(),
            old(self).pos() == 0 ==> final(self).pos() == 0 && r is None,
            old(self).pos() > 0 ==> {
                &&& final(self).pos() == old(self).pos() - 1
                &&& r matches Some(v) && *v == old(self).items()[old(self).pos() - 1]
            },
    {
        if self.position == 0 {
            return None;
        }
        let p = self.position - 1;
        self.position = p;
        Some(&self.inner[p])
    }

    /// Returns the element at the current position without moving; `None` at
    /// the end.
    pub fn current(&self) -> (r: Option<&T>)
        ensures
            self.pos() < self.items().len() ==> (r matches Some(v) && *v == self.items()[self.pos()]),
            !(self.pos() < self.items().len()) ==> r is None,
    {
        if self.position < self.inner.len() {
            Some(&self.inner[self.position])
        } else {
            None
        }
    }

    pub fn position(&self) -> (r: usize)
        ensures
            r as int == self.pos(),
    {
        self.position
    }

    /// Moves to an absolute position, clamped to `[0, length]`: the
    /// backtracking primitive every grammar rule uses.
    pub fn set_position(&mut self, position: usize)
        ensures
            final(self).items() == old(self).items(),
            final(self).wf(),
            final(self).pos() == if position as int <= old(self).items().len() {
                position as int
            } else {
                old(self).items().len() as int
            },
    {
        let len = self.inner.len();
        self.position = if position > len {
            len
        } else {
            position
        };
    }

    /// The length of the sequence under the cursor.
    pub fn len(&self) -> (r: usize)
        ensures
            r as int == self.items().len(),
    {
        self.inner.len()
    }

    /// True when the position has reached the end of the sequence.
    pub fn reached_end(&self) -> (r: bool)
        ensures
            r == (self.pos() >= self.items().len()),
    {
        self.position >= self.inner.len()
    }
}

} // verus!
