//! The mathematical meaning of a counted cycle.
use vstd::prelude::*;

verus! {

/// The state of a counted cycle: the elements of one pass, how many of them
/// the current pass has handed out, and how many passes were completed
/// before the current one.
pub struct CycleState<T> {
    pub items: Seq<T>,
    pub pos: nat,
    pub cycle: nat,
}

impl<T> CycleState<T> {
    /// The state before the first pull.
    pub open spec fn fresh(items: Seq<T>) -> Self {
        CycleState { items, pos: 0, cycle: 0 }
    }

    /// The position lies within the pass.
    pub open spec fn wf(self) -> bool {
        self.pos <= self.items.len()
    }

    /// The number of pulls that lead from the fresh state to this one.
    pub open spec fn pulls(self) -> nat {
        self.cycle * self.items.len() + self.pos
    }

    /// The pair that the next pull hands out: the next element of the
    /// current pass under the current count, or, at the end of a pass, the
    /// first element again under the next count. Nothing if there are no
    /// elements.
    pub open spec fn output(self) -> Option<(nat, T)> {
        if self.items.len() == 0 {
            None
        } else if self.pos < self.items.len() {
            Some((self.cycle, self.items[self.pos as int]))
        } else {
            Some((self.cycle + 1, self.items[0]))
        }
    }

    /// The state after the next pull. Without elements nothing changes: the
    /// count never advances.
    pub open spec fn advance(self) -> Self {
        if self.items.len() == 0 {
            self
        } else if self.pos < self.items.len() {
            CycleState { items: self.items, pos: self.pos + 1, cycle: self.cycle }
        } else {
            CycleState { items: self.items, pos: 1, cycle: self.cycle + 1 }
        }
    }

    /// The state after `n` pulls.
    pub open spec fn advance_by(self, n: nat) -> Self
        decreases n,
    {
        if n == 0 {
            self
        } else {
            self.advance().advance_by((n - 1) as nat)
        }
    }

    /// The pair that the pull after `n` earlier pulls hands out.
    pub open spec fn nth(self, n: nat) -> Option<(nat, T)> {
        self.advance_by(n).output()
    }

    /// Whether the counts of the next `n` pulls are machine integers: the
    /// last of them is the largest.
    pub open spec fn counts_fit(self, n: nat) -> bool {
        self.items.len() > 0 && n > 0 ==> (self.pulls() + n - 1) / (self.items.len() as int)
            <= usize::MAX
    }
}

/// The pair that an adapter hands out for the pair `model` of the model:
/// the same, with the count as a machine integer.
pub open spec fn as_pulled<T>(model: Option<(nat, T)>) -> Option<(usize, T)> {
    match model {
        Some((count, item)) => Some((count as usize, item)),
        None => None,
    }
}

/// Whether the count of `model`, if there is one, is a machine integer.
pub open spec fn count_fits<T>(model: Option<(nat, T)>) -> bool {
    model matches Some((count, _)) ==> count <= usize::MAX
}

/// The bounds that a counted cycle reports over a source that reports
/// `source`: nothing if the source is known to be empty, no upper bound
/// otherwise, and a lower bound without end once the source is known to hold
/// an element.
pub open spec fn cycle_bounds(source: (usize, Option<usize>)) -> (usize, Option<usize>) {
    if source.0 == 0 && source.1 == Some(0usize) {
        (0usize, Some(0usize))
    } else if source.0 == 0 {
        (0usize, None)
    } else {
        (usize::MAX, None)
    }
}

} // verus!
