//! Pull-based sources of elements.
//!
//! A [`Source`] is a finite sequence that is consumed one pull at a time. Its
//! model is the sequence of elements that are still to come. The adapters of
//! this crate are written against this trait alone; [`SliceSource`] is the
//! source that the crate itself provides.
use vstd::prelude::*;

verus! {

/// What a pull hands out when `rest` is still to come: the first element, or
/// nothing at the end.
pub open spec fn head_of<T>(rest: Seq<T>) -> Option<T> {
    if rest.len() > 0 {
        Some(rest[0])
    } else {
        None
    }
}

/// What is still to come after a pull when `rest` was to come before it.
/// At the end nothing changes.
pub open spec fn tail_of<T>(rest: Seq<T>) -> Seq<T> {
    if rest.len() > 0 {
        rest.drop_first()
    } else {
        rest
    }
}

/// Whether the bounds `hint` are true of a sequence of `len` elements.
pub open spec fn bounds_hold(hint: (usize, Option<usize>), len: nat) -> bool {
    &&& hint.0 <= len
    &&& hint.1 matches Some(upper) ==> len <= upper
}

/// A finite, single-direction sequence of elements, consumed one pull at a
/// time.
pub trait Source: Sized {
    type Item;

    /// The elements that are still to come, in the order of the pulls.
    spec fn remaining(&self) -> Seq<Self::Item>;

    /// The bounds that `size_hint` reports in this state.
    spec fn size_bounds(&self) -> (usize, Option<usize>);

    /// Hands out the first remaining element, or `None` once there is none.
    /// An exhausted source stays exhausted.
    fn next(&mut self) -> (item: Option<Self::Item>)
        ensures
            item == head_of(old(self).remaining()),
            final(self).remaining() == tail_of(old(self).remaining()),
    ;

    /// A lower bound and, where one is known, an upper bound on the number of
    /// remaining elements.
    fn size_hint(&self) -> (hint: (usize, Option<usize>))
        ensures
            hint == self.size_bounds(),
            bounds_hold(hint, self.remaining().len()),
    ;
}

/// A source that can be traversed again: it hands out independent copies of
/// itself.
pub trait Replay: Source {
    /// A new source in the state of `self`, with the same elements to come.
    /// Pulling from one does not advance the other.
    fn replay(&self) -> (fresh: Self)
        ensures
            fresh.remaining() == self.remaining(),
            fresh.size_bounds() == self.size_bounds(),
    ;
}

/// The elements of `items`, each behind a reference.
pub open spec fn refs_of<'a, T>(items: Seq<T>) -> Seq<&'a T> {
    items.map_values(|x: T| &x)
}

/// A cursor over a borrowed slice. It hands out references to the elements,
/// first to last.
#[derive(Debug)]
pub struct SliceSource<'a, T> {
    items: &'a [T],
    pos: usize,
}

impl<'a, T> SliceSource<'a, T> {
    /// How many elements have been handed out.
    spec fn consumed(&self) -> int {
        if self.pos <= self.items@.len() {
            self.pos as int
        } else {
            self.items@.len() as int
        }
    }

    /// A cursor in front of the first element of `items`.
    pub fn new(items: &'a [T]) -> (source: Self)
        ensures
            source.remaining() == refs_of(items@),
    {
        SliceSource { items, pos: 0 }
    }
}

impl<'a, T> Source for SliceSource<'a, T> {
    type Item = &'a T;

    closed spec fn remaining(&self) -> Seq<&'a T> {
        refs_of(self.items@.skip(self.consumed()))
    }

    /// A slice knows its length: both bounds are the number of remaining
    /// elements.
    open spec fn size_bounds(&self) -> (usize, Option<usize>) {
        (self.remaining().len() as usize, Some(self.remaining().len() as usize))
    }

    fn next(&mut self) -> (item: Option<&'a T>) {
        if self.pos < self.items.len() {
            let item = &self.items[self.pos];
            self.pos = self.pos + 1;
            Some(item)
        } else {
            None
        }
    }

    fn size_hint(&self) -> (hint: (usize, Option<usize>)) {
        let left = if self.pos <= self.items.len() {
            self.items.len() - self.pos
        } else {
            0
        };
        (left, Some(left))
    }
}

impl<'a, T> Clone for SliceSource<'a, T> {
    /// A cursor at the same place of the same slice.
    fn clone(&self) -> (copy: Self)
        ensures
            copy == *self,
    {
        SliceSource { items: self.items, pos: self.pos }
    }
}

impl<'a, T> Replay for SliceSource<'a, T> {
    fn replay(&self) -> (fresh: Self) {
        SliceSource { items: self.items, pos: self.pos }
    }
}

} // verus!
