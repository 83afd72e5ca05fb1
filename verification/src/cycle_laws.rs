//! What holds of a counted cycle, for every source and every number of
//! pulls.
use crate::cycle_model::{count_fits, CycleState};
use vstd::arithmetic::div_mod::{lemma_div_is_ordered, lemma_fundamental_div_mod_converse};
use vstd::prelude::*;

verus! {

/// One pull adds one to the number of pulls, and the pair it hands out is
/// read off that number: the count is the number of completed passes, the
/// element is the one at the position within the pass.
pub proof fn law_pull_by_pull<T>(state: CycleState<T>)
    requires
        state.wf(),
        state.items.len() > 0,
    ensures
        state.advance().wf(),
        state.advance().items == state.items,
        state.advance().pulls() == state.pulls() + 1,
        state.output() == Some(
            (
                state.pulls() / state.items.len(),
                state.items[(state.pulls() % state.items.len()) as int],
            ),
        ),
{
    let len = state.items.len() as int;
    let cycle = state.cycle as int;
    if state.pos < state.items.len() {
        lemma_fundamental_div_mod_converse(state.pulls() as int, len, cycle, state.pos as int);
    } else {
        assert(cycle * len + len == (cycle + 1) * len) by (nonlinear_arith);
        lemma_fundamental_div_mod_converse(state.pulls() as int, len, cycle + 1, 0);
    }
}

/// A pull after `n` pulls leaves the state after `n + 1` pulls.
pub proof fn law_pulls_add_up<T>(state: CycleState<T>, n: nat)
    ensures
        state.advance_by(n).advance() == state.advance_by(n + 1),
    decreases n,
{
    assert(state.advance_by(n + 1) == state.advance().advance_by(n));
    if n > 0 {
        law_pulls_add_up(state.advance(), (n - 1) as nat);
    } else {
        assert(state.advance().advance_by(0) == state.advance());
    }
}

/// Pulls keep the elements of the pass and the position within it, and each
/// of them counts.
pub proof fn law_after_pulls<T>(state: CycleState<T>, n: nat)
    requires
        state.wf(),
    ensures
        state.advance_by(n).wf(),
        state.advance_by(n).items == state.items,
        state.items.len() > 0 ==> state.advance_by(n).pulls() == state.pulls() + n,
        state.items.len() == 0 ==> state.advance_by(n) == state,
    decreases n,
{
    if n > 0 {
        if state.items.len() > 0 {
            law_pull_by_pull(state);
        }
        law_after_pulls(state.advance(), (n - 1) as nat);
    }
}

/// The pair of every pull, in closed form: after `n` earlier pulls the count
/// is the number of passes that all pulls so far have completed, and the
/// element is the one whose turn it is.
pub proof fn law_pair_after_pulls<T>(state: CycleState<T>, n: nat)
    requires
        state.wf(),
        state.items.len() > 0,
    ensures
        state.nth(n) == Some(
            (
                (state.pulls() + n) / state.items.len(),
                state.items[((state.pulls() + n) % state.items.len()) as int],
            ),
        ),
{
    law_after_pulls(state, n);
    law_pull_by_pull(state.advance_by(n));
}

/// From the start, pull number `n` (counted from zero) hands out the element
/// at position `n` modulo the length under the count `n` divided by the
/// length: the number of full passes before it. A non-empty source never
/// ends.
pub proof fn law_count_is_completed_passes<T>(items: Seq<T>, n: nat)
    requires
        items.len() > 0,
    ensures
        CycleState::fresh(items).nth(n) == Some((n / items.len(), items[(n % items.len()) as int])),
{
    let start = CycleState::fresh(items);
    assert(start.pulls() == 0) by (nonlinear_arith)
        requires
            start.cycle == 0,
            start.pos == 0,
            start.pulls() == start.cycle * start.items.len() + start.pos,
    ;
    law_pair_after_pulls(start, n);
}

/// Over a single element every pull hands out that element, and the count
/// goes up with every pull after the first.
pub proof fn law_single_element_counts_pulls<T>(x: T, n: nat)
    ensures
        CycleState::fresh(seq![x]).nth(n) == Some((n, x)),
{
    law_count_is_completed_passes(seq![x], n);
    assert(n / 1 == n && n % 1 == 0) by (nonlinear_arith);
}

/// Over an empty source no pull hands out anything, however many pulls came
/// before it, and the state never changes: the count does not advance.
pub proof fn law_empty_source_yields_nothing<T>(state: CycleState<T>, n: nat)
    requires
        state.items.len() == 0,
    ensures
        state.nth(n) is None,
        state.advance_by(n) == state,
    decreases n,
{
    if n > 0 {
        law_empty_source_yields_nothing(state.advance(), (n - 1) as nat);
    }
}

/// Once a pull hands out nothing, every later pull hands out nothing.
pub proof fn law_end_is_final<T>(state: CycleState<T>, n: nat, later: nat)
    requires
        state.nth(n) is None,
        n <= later,
    ensures
        state.nth(later) is None,
    decreases later - n,
{
    if n < later {
        law_pulls_add_up(state, n);
        law_end_is_final(state, n + 1, later);
    }
}

/// The count never falls from one pull to a later one, and it rises by no
/// more than the number of pulls between them.
pub proof fn law_count_never_falls<T>(state: CycleState<T>, n: nat, later: nat)
    requires
        state.wf(),
        state.items.len() > 0,
        n <= later,
    ensures
        ({
            &&& state.nth(n) matches Some((count, _))
            &&& state.nth(later) matches Some((later_count, _))
            &&& count <= later_count <= count + (later - n)
        }),
{
    law_pair_after_pulls(state, n);
    law_pair_after_pulls(state, later);
    let len = state.items.len() as int;
    let from = (state.pulls() + n) as int;
    let to = (state.pulls() + later) as int;
    lemma_div_is_ordered(from, to, len);
    assert(to / len <= from / len + (to - from)) by (nonlinear_arith)
        requires
            0 <= from <= to,
            len >= 1,
    ;
}

/// Where the counts of the next `n` pulls are machine integers, the count of
/// each of these pulls is one.
pub proof fn law_counts_fit_each<T>(state: CycleState<T>, n: nat, i: nat)
    requires
        state.wf(),
        state.counts_fit(n),
        i < n,
    ensures
        count_fits(state.nth(i)),
{
    if state.items.len() > 0 {
        law_pair_after_pulls(state, i);
        lemma_div_is_ordered(
            (state.pulls() + i) as int,
            (state.pulls() + n - 1) as int,
            state.items.len() as int,
        );
    } else {
        law_empty_source_yields_nothing(state, i);
    }
}

} // verus!
