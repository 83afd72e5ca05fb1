//! What holds of merging neighbours, for every sequence and every merge
//! function.
use crate::merge_model::{
    first_run_len, first_run_value, lemma_run_len_bound, merged, run_len, run_starts, run_value,
};
use crate::source::tail_of;
use vstd::prelude::*;
use vstd::relations::{sorted_by, total_ordering};

verus! {

/// An empty source gives an empty output.
pub proof fn law_empty_source_empty_output<V>(merge: spec_fn(V, V) -> Option<V>)
    ensures
        merged(merge, Seq::<V>::empty()) == Seq::<V>::empty(),
{
}

/// A source of one element gives the projection of that element, whatever
/// the merge function does.
pub proof fn law_single_element_is_projected<T, V>(
    project: spec_fn(T) -> V,
    merge: spec_fn(V, V) -> Option<V>,
    x: T,
)
    ensures
        merged(merge, seq![x].map_values(project)) == seq![project(x)],
{
    let values = seq![x].map_values(project);
    assert(merged(merge, values.skip(1)) =~= Seq::empty());
}

/// The output of a non-empty source is the value of its first run, followed
/// by the output of what the first run left over. The element that ended the
/// run is the first of the leftover.
pub proof fn law_output_run_by_run<V>(merge: spec_fn(V, V) -> Option<V>, values: Seq<V>)
    requires
        values.len() > 0,
    ensures
        1 <= first_run_len(merge, values) <= values.len(),
        merged(merge, values)[0] == first_run_value(merge, values),
        tail_of(merged(merge, values)) == merged(
            merge,
            values.skip(first_run_len(merge, values) as int),
        ),
{
    lemma_run_len_bound(merge, values[0], values.drop_first());
}

/// Merging never adds an element, and a non-empty source gives a non-empty
/// output.
pub proof fn law_count_never_grows<V>(merge: spec_fn(V, V) -> Option<V>, values: Seq<V>)
    ensures
        merged(merge, values).len() <= values.len(),
        values.len() > 0 ==> merged(merge, values).len() >= 1,
    decreases values.len(),
{
    if values.len() > 0 {
        law_output_run_by_run(merge, values);
        law_count_never_grows(merge, values.skip(first_run_len(merge, values) as int));
    }
}

/// The runs tile the source in order. Each output is the value of one run;
/// the first run begins at the first element, each further run begins where
/// the one before it ended, and the last run ends with the source. So the
/// first elements of the runs stand in the source in the order of their
/// outputs.
pub proof fn law_runs_tile_source_in_order<V>(merge: spec_fn(V, V) -> Option<V>, values: Seq<V>)
    ensures
        run_starts(merge, values).len() == merged(merge, values).len(),
        values.len() > 0 ==> run_starts(merge, values)[0] == 0,
        forall|k: int|
            0 <= k < run_starts(merge, values).len() ==> {
                let start = #[trigger] run_starts(merge, values)[k];
                let end = start + first_run_len(merge, values.skip(start));
                &&& 0 <= start < values.len()
                &&& merged(merge, values)[k] == first_run_value(merge, values.skip(start))
                &&& end == if k + 1 < run_starts(merge, values).len() {
                    run_starts(merge, values)[k + 1]
                } else {
                    values.len() as int
                }
            },
        forall|j: int, k: int|
            0 <= j < k < run_starts(merge, values).len() ==> run_starts(merge, values)[j]
                < run_starts(merge, values)[k],
    decreases values.len(),
{
    if values.len() > 0 {
        law_output_run_by_run(merge, values);
        let used = first_run_len(merge, values) as int;
        let left = values.skip(used);
        law_runs_tile_source_in_order(merge, left);
        law_count_never_grows(merge, left);
        let starts = run_starts(merge, values);
        let later = run_starts(merge, left);
        assert(values.skip(0) =~= values);
        assert forall|k: int| 0 <= k < starts.len() implies ({
            let start = #[trigger] starts[k];
            let end = start + first_run_len(merge, values.skip(start));
            &&& 0 <= start < values.len()
            &&& merged(merge, values)[k] == first_run_value(merge, values.skip(start))
            &&& end == if k + 1 < starts.len() {
                starts[k + 1]
            } else {
                values.len() as int
            }
        }) by {
            if k > 0 {
                assert(values.skip(starts[k]) =~= left.skip(later[k - 1]));
            }
        }
    }
}

/// Where no element merges with its successor, every element comes out as it
/// went in.
pub proof fn law_without_mergeable_neighbours_unchanged<V>(
    merge: spec_fn(V, V) -> Option<V>,
    values: Seq<V>,
)
    requires
        forall|i: int| 0 <= i < values.len() - 1 ==> merge(values[i], #[trigger] values[i + 1]) is None,
    ensures
        merged(merge, values) == values,
    decreases values.len(),
{
    if values.len() > 0 {
        law_without_mergeable_neighbours_unchanged(merge, values.skip(1));
    }
}

/// Whether `merge` joins exactly the pairs of equal values, into that value.
pub open spec fn joins_equal_values<V>(merge: spec_fn(V, V) -> Option<V>) -> bool {
    forall|a: V, b: V| #[trigger]
        merge(a, b) == (if a == b {
            Some(a)
        } else {
            None
        })
}

/// Whether `result` is `values` sorted by `leq` and with every repetition
/// removed: it is sorted, it holds no value twice, and it holds the values of
/// `values` and no others.
pub open spec fn is_sorted_without_repeats<V>(
    result: Seq<V>,
    values: Seq<V>,
    leq: spec_fn(V, V) -> bool,
) -> bool {
    &&& sorted_by(result, leq)
    &&& result.no_duplicates()
    &&& result.to_set() == values.to_set()
}

/// Under a merge function that joins equal values, a run holds copies of its
/// first element and nothing else, and its value is that element.
proof fn lemma_equal_run<V>(merge: spec_fn(V, V) -> Option<V>, acc: V, rest: Seq<V>)
    requires
        joins_equal_values(merge),
    ensures
        run_value(merge, acc, rest) == acc,
        forall|i: int| 0 <= i < run_len(merge, acc, rest) ==> rest[i] == acc,
        run_len(merge, acc, rest) < rest.len() ==> rest[run_len(merge, acc, rest) as int] != acc,
        run_len(merge, acc, rest) <= rest.len(),
    decreases rest.len(),
{
    if rest.len() > 0 {
        assert(merge(acc, rest[0]) == (if acc == rest[0] {
            Some(acc)
        } else {
            None
        }));
        if acc == rest[0] {
            lemma_equal_run(merge, acc, rest.drop_first());
            assert forall|i: int| 0 <= i < run_len(merge, acc, rest) implies rest[i] == acc by {
                if i > 0 {
                    assert(rest[i] == rest.drop_first()[i - 1]);
                }
            }
        }
    }
}

/// Over a sorted source, a merge function that joins equal values gives the
/// source sorted and with every repetition removed.
pub proof fn law_sorted_source_loses_repeats<V>(
    merge: spec_fn(V, V) -> Option<V>,
    leq: spec_fn(V, V) -> bool,
    values: Seq<V>,
)
    requires
        joins_equal_values(merge),
        total_ordering(leq),
        sorted_by(values, leq),
    ensures
        is_sorted_without_repeats(merged(merge, values), values, leq),
    decreases values.len(),
{
    let out = merged(merge, values);
    if values.len() == 0 {
        assert(out.to_set() =~= values.to_set());
    } else {
        let seed = values[0];
        let tail = values.drop_first();
        lemma_equal_run(merge, seed, tail);
        let used = first_run_len(merge, values) as int;
        let left = values.skip(used);
        let later = merged(merge, left);
        law_sorted_source_loses_repeats(merge, leq, left);
        // Every element of the first run is the seed.
        assert forall|i: int| 0 <= i < used implies values[i] == seed by {
            if i > 0 {
                assert(values[i] == tail[i - 1]);
            }
        }
        // Nothing that the first run left over is the seed.
        assert forall|i: int| 0 <= i < left.len() implies left[i] != seed by {
            if i > 0 && left[i] == seed {
                assert(leq(left[0], seed) && leq(seed, left[0]));
            }
        }
        // Every output after the first stands in the leftover.
        assert forall|k: int| 0 <= k < later.len() implies left.contains(#[trigger] later[k]) by {
            assert(later.to_set().contains(later[k]));
        }
        assert forall|x: V| out.to_set().contains(x) <==> values.to_set().contains(x) by {
            if values.contains(x) {
                let at = choose|at: int| 0 <= at < values.len() && values[at] == x;
                if at < used {
                    assert(out[0] == x);
                } else {
                    assert(left[at - used] == x);
                    assert(later.to_set().contains(x));
                    let k = choose|k: int| 0 <= k < later.len() && later[k] == x;
                    assert(out[k + 1] == x);
                }
            }
        }
        assert(out.to_set() =~= values.to_set());
    }
}

/// There is only one way to sort a sequence and remove its repetitions.
pub proof fn law_sorted_without_repeats_is_unique<V>(
    first: Seq<V>,
    second: Seq<V>,
    values: Seq<V>,
    leq: spec_fn(V, V) -> bool,
)
    requires
        total_ordering(leq),
        is_sorted_without_repeats(first, values, leq),
        is_sorted_without_repeats(second, values, leq),
    ensures
        first == second,
    decreases first.len(),
{
    if first.len() == 0 {
        if second.len() > 0 {
            assert(second.to_set().contains(second[0]));
        }
    } else {
        assert(first.to_set().contains(first[0]));
        let at = choose|at: int| 0 <= at < second.len() && second[at] == first[0];
        assert(second.to_set().contains(second[0]));
        let back = choose|back: int| 0 <= back < first.len() && first[back] == second[0];
        if at > 0 {
            assert(leq(second[0], second[at]));
            if back > 0 {
                assert(leq(first[0], first[back]));
            }
        }
        let a = first.drop_first();
        let b = second.drop_first();
        assert forall|x: V| a.to_set().contains(x) <==> b.to_set().contains(x) by {
            if a.contains(x) {
                let i = choose|i: int| 0 <= i < a.len() && a[i] == x;
                assert(first.to_set().contains(x));
                let j = choose|j: int| 0 <= j < second.len() && second[j] == x;
                assert(b[j - 1] == x);
            }
            if b.contains(x) {
                let j = choose|j: int| 0 <= j < b.len() && b[j] == x;
                assert(second.to_set().contains(x));
                let i = choose|i: int| 0 <= i < first.len() && first[i] == x;
                assert(a[i - 1] == x);
            }
        }
        assert(a.to_set() =~= b.to_set());
        law_sorted_without_repeats_is_unique(a, b, a, leq);
        assert(second =~= seq![second[0]] + b);
    }
}

} // verus!
