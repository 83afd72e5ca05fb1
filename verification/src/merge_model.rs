//! The mathematical meaning of merging neighbours.
//!
//! The model works on the projected values alone: a sequence `values` and a
//! merge function that either joins an accumulator with the value that
//! follows it or declines.
use vstd::prelude::*;

verus! {

/// How many leading elements of `rest` are absorbed, one after the other,
/// into an accumulator that starts out as `acc`. The run stops at the first
/// element that `merge` declines, or at the end of `rest`.
pub open spec fn run_len<V>(merge: spec_fn(V, V) -> Option<V>, acc: V, rest: Seq<V>) -> nat
    decreases rest.len(),
{
    if rest.len() == 0 {
        0
    } else {
        match merge(acc, rest[0]) {
            Some(joined) => 1 + run_len(merge, joined, rest.drop_first()),
            None => 0,
        }
    }
}

/// The accumulator at the end of the run that `run_len` measures.
pub open spec fn run_value<V>(merge: spec_fn(V, V) -> Option<V>, acc: V, rest: Seq<V>) -> V
    decreases rest.len(),
{
    if rest.len() == 0 {
        acc
    } else {
        match merge(acc, rest[0]) {
            Some(joined) => run_value(merge, joined, rest.drop_first()),
            None => acc,
        }
    }
}

/// How many elements of a non-empty `values` go into its first output: the
/// seed and the run that follows it.
pub open spec fn first_run_len<V>(merge: spec_fn(V, V) -> Option<V>, values: Seq<V>) -> nat {
    1 + run_len(merge, values[0], values.drop_first())
}

/// The first output of a non-empty `values`.
pub open spec fn first_run_value<V>(merge: spec_fn(V, V) -> Option<V>, values: Seq<V>) -> V {
    run_value(merge, values[0], values.drop_first())
}

/// A run never takes more than there is.
pub proof fn lemma_run_len_bound<V>(merge: spec_fn(V, V) -> Option<V>, acc: V, rest: Seq<V>)
    ensures
        run_len(merge, acc, rest) <= rest.len(),
    decreases rest.len(),
{
    if rest.len() > 0 {
        if let Some(joined) = merge(acc, rest[0]) {
            lemma_run_len_bound(merge, joined, rest.drop_first());
        }
    }
}

/// The whole output: every maximal run of `values` folded into one element.
pub open spec fn merged<V>(merge: spec_fn(V, V) -> Option<V>, values: Seq<V>) -> Seq<V>
    decreases values.len(),
    via merged_decreases::<V>
{
    if values.len() == 0 {
        Seq::empty()
    } else {
        seq![first_run_value(merge, values)] + merged(
            merge,
            values.skip(first_run_len(merge, values) as int),
        )
    }
}

#[via_fn]
proof fn merged_decreases<V>(merge: spec_fn(V, V) -> Option<V>, values: Seq<V>) {
    if values.len() > 0 {
        lemma_run_len_bound(merge, values[0], values.drop_first());
    }
}

/// Where in `values` the run of each output begins: one index for every
/// element of `merged(merge, values)`, in the order of the outputs.
pub open spec fn run_starts<V>(merge: spec_fn(V, V) -> Option<V>, values: Seq<V>) -> Seq<int>
    decreases values.len(),
    via run_starts_decreases::<V>
{
    if values.len() == 0 {
        Seq::empty()
    } else {
        let used = first_run_len(merge, values) as int;
        seq![0int] + run_starts(merge, values.skip(used)).map_values(|start: int| start + used)
    }
}

#[via_fn]
proof fn run_starts_decreases<V>(merge: spec_fn(V, V) -> Option<V>, values: Seq<V>) {
    if values.len() > 0 {
        lemma_run_len_bound(merge, values[0], values.drop_first());
    }
}

/// How many elements of `values` the next pull consumes: the first run, or
/// nothing at the end.
pub open spec fn consumed_by_pull<V>(merge: spec_fn(V, V) -> Option<V>, values: Seq<V>) -> nat {
    if values.len() == 0 {
        0
    } else {
        first_run_len(merge, values)
    }
}

/// The bounds on what is pending in an adapter whose source reports
/// `source`: one more on either side while an element sits in the lookahead
/// slot. The lower bound stops at the largest machine integer; an upper bound
/// that would pass it is unknown.
pub open spec fn with_lookahead(source: (usize, Option<usize>), ahead: bool) -> (
    usize,
    Option<usize>,
) {
    if ahead {
        (
            if source.0 < usize::MAX {
                (source.0 + 1) as usize
            } else {
                usize::MAX
            },
            match source.1 {
                Some(upper) => if upper < usize::MAX {
                    Some((upper + 1) as usize)
                } else {
                    None
                },
                None => None,
            },
        )
    } else {
        source
    }
}

/// The bounds on the outputs when `pending` bounds what is pending: at least
/// one output if an element is known to be pending, and never more outputs
/// than elements.
pub open spec fn merged_bounds(pending: (usize, Option<usize>)) -> (usize, Option<usize>) {
    (
        if pending.0 > 0 {
            1usize
        } else {
            0usize
        },
        pending.1,
    )
}

/// Every result that the executable projection `p` can give for an element
/// is the one that `f` names.
pub open spec fn projects_as<T, V, P: Fn(&T) -> V>(p: P, f: spec_fn(T) -> V) -> bool {
    forall|x: T, v: V| call_ensures(p, (&x,), v) ==> v == f(x)
}

/// Every result that the executable merge function `b` can give for a pair
/// is the one that `g` names.
pub open spec fn merges_as<V, B: Fn(&V, &V) -> Option<V>>(
    b: B,
    g: spec_fn(V, V) -> Option<V>,
) -> bool {
    forall|acc: V, next: V, out: Option<V>| call_ensures(b, (&acc, &next), out) ==> out == g(acc, next)
}

/// The projection may be called on every element.
pub open spec fn projection_total<T, V, P: Fn(&T) -> V>(p: P) -> bool {
    forall|x: T| call_requires(p, (&x,))
}

/// The merge function may be called on every pair.
pub open spec fn merge_total<V, B: Fn(&V, &V) -> Option<V>>(b: B) -> bool {
    forall|acc: V, next: V| call_requires(b, (&acc, &next))
}

} // verus!
