//! The adapter that merges neighbours.
//!
//! An [`AdjacentMerge`] projects every element of its source to a value and
//! folds each maximal run of neighbouring values that the merge function
//! joins into one output. Only neighbours are ever compared: a value that
//! could merge with an earlier output but does not follow it directly starts
//! a run of its own.
//!
//! The projection and the merge function are executable closures. The
//! contracts speak of them through any pair of mathematical functions that
//! name their results (`projects_as`, `merges_as`); relative to such a pair
//! the outputs are `merged` of the projected source.
use crate::merge_laws::{law_count_never_grows, law_output_run_by_run};
use crate::merge_model::{
    consumed_by_pull, first_run_len, first_run_value, merge_total, merged, merged_bounds,
    merges_as, projection_total, projects_as, run_len, run_value, with_lookahead,
};
use crate::source::{bounds_hold, head_of, tail_of, Source};
use vstd::prelude::*;

verus! {

/// A lazy sequence over the source `I` that hands out one value of type `V`
/// for every maximal run of mergeable neighbours.
///
/// Besides the source it holds one lookahead slot: the element that ended
/// the last run waits there and seeds the next one.
#[verifier::reject_recursive_types(V)]
pub struct AdjacentMerge<I: Source, V, B, P> where
    B: Fn(&V, &V) -> Option<V>,
    P: Fn(&I::Item) -> V,
 {
    iter: I,
    peeked: Option<I::Item>,
    p: P,
    b: B,
}

impl<I: Source, V, B, P> AdjacentMerge<I, V, B, P> where
    B: Fn(&V, &V) -> Option<V>,
    P: Fn(&I::Item) -> V,
 {
    /// The underlying source, behind the lookahead slot.
    pub closed spec fn source(&self) -> I {
        self.iter
    }

    /// The element that was pulled from the source but not yet used.
    pub closed spec fn lookahead(&self) -> Option<I::Item> {
        self.peeked
    }

    /// The projection.
    pub closed spec fn projection(&self) -> P {
        self.p
    }

    /// The merge function.
    pub closed spec fn merge(&self) -> B {
        self.b
    }

    /// The projection and the merge function may be called on every input.
    pub open spec fn wf(&self) -> bool {
        projection_total(self.projection()) && merge_total(self.merge())
    }

    /// The source elements that have not gone into an output yet: the
    /// element in the lookahead slot, if any, and then what the source still
    /// has.
    pub open spec fn pending(&self) -> Seq<I::Item> {
        match self.lookahead() {
            Some(x) => seq![x] + self.source().remaining(),
            None => self.source().remaining(),
        }
    }

    /// The bounds on the number of pending elements, from what the source
    /// reports.
    pub open spec fn pending_bounds(&self) -> (usize, Option<usize>) {
        with_lookahead(self.source().size_bounds(), self.lookahead() is Some)
    }

    /// The outputs that are still to come, where `f` names the results of
    /// the projection and `g` those of the merge function.
    pub open spec fn outputs(
        &self,
        f: spec_fn(I::Item) -> V,
        g: spec_fn(V, V) -> Option<V>,
    ) -> Seq<V> {
        merged(g, self.pending().map_values(f))
    }

    /// Hands out the next output, or `None` once nothing is pending.
    ///
    /// The first pending element is projected to seed an accumulator. The
    /// element after it is inspected without being consumed; while the merge
    /// function joins its projection with the accumulator, it is consumed
    /// and the joined value becomes the accumulator. The first element that
    /// is declined stays pending and seeds the next output.
    pub fn next(&mut self) -> (out: Option<V>)
        requires
            old(self).wf(),
        ensures
            final(self).wf(),
            final(self).projection() == old(self).projection(),
            final(self).merge() == old(self).merge(),
            out is Some <==> old(self).pending().len() > 0,
            final(self).pending().len() <= old(self).pending().len(),
            final(self).pending() == old(self).pending().skip(
                old(self).pending().len() - final(self).pending().len(),
            ),
            out is Some ==> final(self).pending().len() < old(self).pending().len(),
            forall|f: spec_fn(I::Item) -> V, g: spec_fn(V, V) -> Option<V>|
                #![trigger projects_as(old(self).projection(), f), merges_as(old(self).merge(), g)]
                projects_as(old(self).projection(), f) && merges_as(old(self).merge(), g) ==> {
                    let values = old(self).pending().map_values(f);
                    &&& out == head_of(merged(g, values))
                    &&& final(self).pending() == old(self).pending().skip(
                        consumed_by_pull(g, values) as int,
                    )
                    &&& final(self).outputs(f, g) == tail_of(old(self).outputs(f, g))
                },
    {
        let ghost all = self.pending();
        let first = match self.peeked.take() {
            Some(x) => Some(x),
            None => self.iter.next(),
        };
        let first = match first {
            Some(x) => x,
            None => {
                return None;
            },
        };
        let mut acc = (self.p)(&first);
        let ghost mut used: int = 1;
        loop
            invariant
                projection_total(self.p),
                merge_total(self.b),
                self.p == old(self).p,
                self.b == old(self).b,
                all == old(self).pending(),
                1 <= used <= all.len(),
                self.pending() == all.skip(used),
                forall|f: spec_fn(I::Item) -> V, g: spec_fn(V, V) -> Option<V>|
                    #![trigger projects_as(self.p, f), merges_as(self.b, g)]
                    projects_as(self.p, f) && merges_as(self.b, g) ==> {
                        let values = all.map_values(f);
                        &&& first_run_value(g, values) == run_value(g, acc, values.skip(used))
                        &&& first_run_len(g, values) == used + run_len(g, acc, values.skip(used))
                    },
            decreases all.len() - used,
        {
            if self.peeked.is_none() {
                self.peeked = self.iter.next();
            }
            assert(self.pending() =~= all.skip(used));
            match &self.peeked {
                None => {
                    proof {
                        Self::lemma_pull_done(all, self.pending(), self.p, self.b, acc, used);
                    }
                    return Some(acc);
                },
                Some(candidate) => {
                    assert(all.skip(used)[0] == *candidate);
                    let value = (self.p)(candidate);
                    match (self.b)(&acc, &value) {
                        Some(joined) => {
                            proof {
                                assert forall|
                                    f: spec_fn(I::Item) -> V,
                                    g: spec_fn(V, V) -> Option<V>,
                                |
                                    #![trigger projects_as(self.p, f), merges_as(self.b, g)]
                                    projects_as(self.p, f) && merges_as(self.b, g) implies ({
                                    let values = all.map_values(f);
                                    &&& first_run_value(g, values) == run_value(
                                        g,
                                        joined,
                                        values.skip(used + 1),
                                    )
                                    &&& first_run_len(g, values) == used + 1 + run_len(
                                        g,
                                        joined,
                                        values.skip(used + 1),
                                    )
                                }) by {
                                    let values = all.map_values(f);
                                    assert(values.skip(used).drop_first() =~= values.skip(used + 1));
                                }
                                used = used + 1;
                            }
                            acc = joined;
                            self.peeked = None;
                            assert(all.skip(used - 1).drop_first() =~= all.skip(used));
                        },
                        None => {
                            proof {
                                assert forall|
                                    f: spec_fn(I::Item) -> V,
                                    g: spec_fn(V, V) -> Option<V>,
                                |
                                    #![trigger projects_as(self.p, f), merges_as(self.b, g)]
                                    projects_as(self.p, f) && merges_as(self.b, g) implies ({
                                    let values = all.map_values(f);
                                    &&& first_run_value(g, values) == acc
                                    &&& first_run_len(g, values) == used
                                }) by {
                                    assert(all.map_values(f).skip(used)[0] == value);
                                }
                                Self::lemma_pull_done(all, self.pending(), self.p, self.b, acc, used);
                            }
                            return Some(acc);
                        },
                    }
                },
            }
        }
    }

    /// What a pull that used the first `used` of the pending elements `all`
    /// and ended with the accumulator `acc` owes its caller.
    proof fn lemma_pull_done(all: Seq<I::Item>, left: Seq<I::Item>, p: P, b: B, acc: V, used: int)
        requires
            1 <= used <= all.len(),
            left == all.skip(used),
            forall|f: spec_fn(I::Item) -> V, g: spec_fn(V, V) -> Option<V>|
                #![trigger projects_as(p, f), merges_as(b, g)]
                projects_as(p, f) && merges_as(b, g) ==> {
                    let values = all.map_values(f);
                    &&& first_run_value(g, values) == acc
                    &&& first_run_len(g, values) == used
                },
        ensures
            forall|f: spec_fn(I::Item) -> V, g: spec_fn(V, V) -> Option<V>|
                #![trigger projects_as(p, f), merges_as(b, g)]
                projects_as(p, f) && merges_as(b, g) ==> {
                    let values = all.map_values(f);
                    &&& Some(acc) == head_of(merged(g, values))
                    &&& left == all.skip(consumed_by_pull(g, values) as int)
                    &&& merged(g, left.map_values(f)) == tail_of(merged(g, values))
                },
    {
        assert forall|f: spec_fn(I::Item) -> V, g: spec_fn(V, V) -> Option<V>|
            #![trigger projects_as(p, f), merges_as(b, g)]
            projects_as(p, f) && merges_as(b, g) implies ({
            let values = all.map_values(f);
            &&& Some(acc) == head_of(merged(g, values))
            &&& left == all.skip(consumed_by_pull(g, values) as int)
            &&& merged(g, left.map_values(f)) == tail_of(merged(g, values))
        }) by {
            let values = all.map_values(f);
            law_output_run_by_run(g, values);
            assert(left.map_values(f) =~= values.skip(used));
        }
    }

    /// A lower and, where one is known, an upper bound on the number of
    /// outputs that are still to come: at least one if an element is known to
    /// be pending, and no more than there are pending elements, since merging
    /// never adds an element.
    pub fn size_hint(&self) -> (hint: (usize, Option<usize>))
        ensures
            hint == merged_bounds(self.pending_bounds()),
            forall|f: spec_fn(I::Item) -> V, g: spec_fn(V, V) -> Option<V>|
                bounds_hold(hint, #[trigger] self.outputs(f, g).len()),
    {
        let (source_low, source_high) = self.iter.size_hint();
        let (low, high) = match &self.peeked {
            Some(_) => (
                if source_low < usize::MAX {
                    source_low + 1
                } else {
                    usize::MAX
                },
                match source_high {
                    Some(upper) => if upper < usize::MAX {
                        Some(upper + 1)
                    } else {
                        None
                    },
                    None => None,
                },
            ),
            None => (source_low, source_high),
        };
        proof {
            assert forall|f: spec_fn(I::Item) -> V, g: spec_fn(V, V) -> Option<V>|
                bounds_hold(
                    merged_bounds((low, high)),
                    #[trigger] self.outputs(f, g).len(),
                ) by {
                law_count_never_grows(g, self.pending().map_values(f));
            }
        }
        (
            if low > 0 {
                1
            } else {
                0
            },
            high,
        )
    }

    /// Pulls until nothing is pending and returns the outputs in order.
    pub fn collect(self) -> (out: Vec<V>)
        requires
            self.wf(),
        ensures
            forall|f: spec_fn(I::Item) -> V, g: spec_fn(V, V) -> Option<V>|
                #![trigger projects_as(self.projection(), f), merges_as(self.merge(), g)]
                projects_as(self.projection(), f) && merges_as(self.merge(), g) ==> out@
                    == self.outputs(f, g),
            out@.len() <= self.pending().len(),
            self.pending().len() > 0 ==> out@.len() > 0,
    {
        let mut rest = self;
        let mut out: Vec<V> = Vec::new();
        loop
            invariant
                rest.wf(),
                rest.projection() == self.projection(),
                rest.merge() == self.merge(),
                out@.len() + rest.pending().len() <= self.pending().len(),
                self.pending().len() > 0 ==> out@.len() > 0 || rest.pending().len() > 0,
                forall|f: spec_fn(I::Item) -> V, g: spec_fn(V, V) -> Option<V>|
                    #![trigger projects_as(self.projection(), f), merges_as(self.merge(), g)]
                    projects_as(self.projection(), f) && merges_as(self.merge(), g) ==> out@
                        + rest.outputs(f, g) == self.outputs(f, g),
            decreases rest.pending().len(),
        {
            match rest.next() {
                Some(value) => {
                    out.push(value);
                },
                None => {
                    return out;
                },
            }
        }
    }
}

/// Gives every source the method `adjacent_merge`.
pub trait AdjacentMergeIterator {
    type Item;

    /// Wraps the source in an adapter that projects every element with `p`
    /// and folds neighbours together for as long as `b` joins them. Nothing
    /// is pulled from the source before the first pull from the adapter.
    fn adjacent_merge<V, B, P>(self, p: P, b: B) -> (adapter: AdjacentMerge<Self, V, B, P>) where
        B: Fn(&V, &V) -> Option<V>,
        P: Fn(&<Self as Source>::Item) -> V,
        Self: Sized + Source,

        requires
            projection_total(p),
            merge_total(b),
        ensures
            adapter.wf(),
            adapter.source() == self,
            adapter.lookahead() is None,
            adapter.projection() == p,
            adapter.merge() == b,
    {
        AdjacentMerge { iter: self, peeked: None, p, b }
    }
}

impl<S: Source> AdjacentMergeIterator for S {
    type Item = S::Item;
}

} // verus!
