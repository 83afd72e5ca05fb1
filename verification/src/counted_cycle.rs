//! The adapter that replays a source and counts the passes.
use crate::cycle_laws::{law_after_pulls, law_counts_fit_each, law_pulls_add_up};
use crate::cycle_model::{as_pulled, count_fits, cycle_bounds, CycleState};
use crate::source::{Replay, Source};
use vstd::prelude::*;

verus! {

/// A lazy sequence that replays a source without end and pairs every
/// element with the number of passes completed before it. Over an empty
/// source it is empty.
#[derive(Debug)]
pub struct CountedCycle<I> {
    orig: I,
    iter: I,
    cycle: usize,
    done: bool,
}

impl<I: Replay> View for CountedCycle<I> {
    type V = CycleState<I::Item>;

    open spec fn view(&self) -> CycleState<I::Item> {
        let items = self.snapshot().remaining();
        let left = self.cursor().remaining().len();
        CycleState {
            items,
            pos: if left <= items.len() {
                (items.len() - left) as nat
            } else {
                0
            },
            cycle: self.count() as nat,
        }
    }
}

impl<I: Replay> CountedCycle<I> {
    /// The untouched copy of the source, from which every pass starts.
    pub closed spec fn snapshot(&self) -> I {
        self.orig
    }

    /// The cursor of the current pass.
    pub closed spec fn cursor(&self) -> I {
        self.iter
    }

    /// The number of passes completed before the current one.
    pub closed spec fn count(&self) -> usize {
        self.cycle
    }

    /// Whether the adapter has found its source empty.
    pub closed spec fn finished(&self) -> bool {
        self.done
    }

    /// The current pass is a rest of the snapshot, and only an adapter over
    /// an empty source is finished.
    pub open spec fn wf(&self) -> bool {
        let items = self.snapshot().remaining();
        let rest = self.cursor().remaining();
        &&& rest.len() <= items.len()
        &&& rest == items.skip(items.len() - rest.len())
        &&& self.finished() ==> items.len() == 0
    }

    /// A counted cycle over `iter`, before the first pull.
    pub fn new(iter: I) -> (cycle: CountedCycle<I>)
        ensures
            cycle.wf(),
            cycle@ == CycleState::fresh(iter.remaining()),
            cycle.snapshot().size_bounds() == iter.size_bounds(),
            !cycle.finished(),
    {
        let orig = iter.replay();
        let cycle = CountedCycle { orig, iter, cycle: 0, done: false };
        assert(cycle.cursor().remaining() =~= cycle.snapshot().remaining().skip(0));
        cycle
    }

    /// Hands out the next element with the count of its pass. At the end of
    /// a pass the source is replayed from the snapshot and the count goes up
    /// by one. Over an empty source the adapter hands out nothing, now and
    /// on every later pull.
    pub fn next(&mut self) -> (pair: Option<(usize, I::Item)>)
        requires
            old(self).wf(),
            count_fits(old(self)@.output()),
        ensures
            final(self).wf(),
            pair == as_pulled(old(self)@.output()),
            final(self)@ == old(self)@.advance(),
            final(self).snapshot() == old(self).snapshot(),
    {
        if self.done {
            return None;
        }
        let ghost items = self.orig.remaining();
        let ghost rest = self.iter.remaining();
        match self.iter.next() {
            Some(item) => {
                assert(self.iter.remaining() =~= items.skip(items.len() - rest.len() + 1));
                Some((self.cycle, item))
            },
            None => {
                let mut fresh = self.orig.replay();
                match fresh.next() {
                    Some(item) => {
                        self.iter = fresh;
                        self.cycle = self.cycle + 1;
                        Some((self.cycle, item))
                    },
                    None => {
                        self.done = true;
                        None
                    },
                }
            },
        }
    }

    /// Pulls `n` times and returns the pairs in order: `n` pairs over a
    /// source with elements, none over an empty one.
    pub fn take(&mut self, n: usize) -> (pairs: Vec<(usize, I::Item)>)
        requires
            old(self).wf(),
            old(self)@.counts_fit(n as nat),
        ensures
            final(self).wf(),
            final(self).snapshot() == old(self).snapshot(),
            final(self)@ == old(self)@.advance_by(n as nat),
            pairs@.len() == (if old(self)@.items.len() == 0 {
                0
            } else {
                n as int
            }),
            forall|i: int|
                0 <= i < pairs@.len() ==> Some(#[trigger] pairs@[i]) == as_pulled(
                    old(self)@.nth(i as nat),
                ),
    {
        let ghost start = self@;
        let mut pairs: Vec<(usize, I::Item)> = Vec::new();
        let mut i: usize = 0;
        while i < n
            invariant
                i <= n,
                self.wf(),
                self.snapshot() == old(self).snapshot(),
                start == old(self)@,
                start.wf(),
                self@ == start.advance_by(i as nat),
                pairs@.len() == i,
                start.counts_fit(n as nat),
                forall|j: int|
                    0 <= j < i ==> Some(#[trigger] pairs@[j]) == as_pulled(start.nth(j as nat)),
            decreases n - i,
        {
            proof {
                law_counts_fit_each(start, n as nat, i as nat);
                law_pulls_add_up(start, i as nat);
            }
            match self.next() {
                Some(pair) => {
                    pairs.push(pair);
                },
                None => {
                    proof {
                        law_after_pulls(start, i as nat);
                        law_after_pulls(start, n as nat);
                        if i > 0 {
                            assert(Some(pairs@[0]) == as_pulled(start.nth(0)));
                            assert(start.advance_by(0) == start);
                        }
                    }
                    return pairs;
                },
            }
            i = i + 1;
        }
        proof {
            law_after_pulls(start, n as nat);
            if start.items.len() == 0 && n > 0 {
                assert(Some(pairs@[0]) == as_pulled(start.nth(0)));
                assert(start.advance_by(0) == start);
            }
        }
        pairs
    }

    /// Nothing if the source is known to be empty; otherwise no upper bound,
    /// and a lower bound without end once the source is known to hold an
    /// element.
    pub fn size_hint(&self) -> (hint: (usize, Option<usize>))
        ensures
            hint == cycle_bounds(self.snapshot().size_bounds()),
            hint.1 is Some ==> self@.items.len() == 0,
            hint.0 > 0 ==> self@.items.len() > 0,
    {
        let (lower, upper) = self.orig.size_hint();
        if lower == 0 {
            match upper {
                Some(0) => (0, Some(0)),
                _ => (0, None),
            }
        } else {
            (usize::MAX, None)
        }
    }
}

impl<I: Replay> Clone for CountedCycle<I> {
    /// An independent adapter in the same state: it hands out what `self`
    /// would hand out, and pulling from one does not advance the other.
    fn clone(&self) -> (copy: Self)
        ensures
            copy@ == self@,
            copy.finished() == self.finished(),
            copy.snapshot().size_bounds() == self.snapshot().size_bounds(),
            self.wf() ==> copy.wf(),
    {
        CountedCycle {
            orig: self.orig.replay(),
            iter: self.iter.replay(),
            cycle: self.cycle,
            done: self.done,
        }
    }
}

/// Gives every replayable source the method `cycle_counted`.
pub trait CycledIterator {
    type Item;

    /// Wraps the source in a counted cycle.
    fn cycle_counted(self) -> (cycle: CountedCycle<Self>) where Self: Sized + Replay
        ensures
            cycle.wf(),
            cycle@ == CycleState::fresh(self.remaining()),
            cycle.snapshot().size_bounds() == self.size_bounds(),
            !cycle.finished(),
    {
        CountedCycle::new(self)
    }
}

impl<S: Replay> CycledIterator for S {
    type Item = S::Item;
}

} // verus!
