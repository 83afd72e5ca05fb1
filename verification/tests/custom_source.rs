use iterator_adapters::{AdjacentMergeIterator, CycledIterator, Replay, Source};

/// Hands out `left`, `left - 1`, ..., 1 by value. It reports the bounds it is
/// given, which may say less than it knows.
struct Countdown {
    left: u32,
    bounds: (usize, Option<usize>),
}

impl Source for Countdown {
    type Item = u32;

    fn next(&mut self) -> Option<u32> {
        if self.left == 0 {
            None
        } else {
            self.left -= 1;
            Some(self.left + 1)
        }
    }

    fn size_hint(&self) -> (usize, Option<usize>) {
        self.bounds
    }

    // The two descriptions below exist for proofs only; nothing runs them.
    fn remaining(&self) -> vstd::seq::Seq<u32> {
        unreachable!()
    }

    fn size_bounds(&self) -> (usize, Option<usize>) {
        unreachable!()
    }
}

impl Replay for Countdown {
    fn replay(&self) -> Self {
        Countdown { left: self.left, bounds: self.bounds }
    }
}

fn halves_equal(l: &u32, r: &u32) -> Option<u32> {
    if l == r {
        Some(*l)
    } else {
        None
    }
}

#[test]
fn cycle_over_a_source_of_values() {
    let source = Countdown { left: 2, bounds: (2, Some(2)) };
    assert_eq!(
        source.cycle_counted().take(5),
        vec![(0, 2), (0, 1), (1, 2), (1, 1), (2, 2)]
    );
}

#[test]
fn cycle_size_hint_is_open_while_the_source_may_be_empty() {
    let cycle = Countdown { left: 2, bounds: (0, None) }.cycle_counted();
    assert_eq!(cycle.size_hint(), (0, None));
    let cycle = Countdown { left: 2, bounds: (0, Some(5)) }.cycle_counted();
    assert_eq!(cycle.size_hint(), (0, None));
}

#[test]
fn cycle_size_hint_has_no_end_once_an_element_is_known() {
    let cycle = Countdown { left: 2, bounds: (1, None) }.cycle_counted();
    assert_eq!(cycle.size_hint(), (usize::MAX, None));
    let cycle = Countdown { left: 2, bounds: (1, Some(9)) }.cycle_counted();
    assert_eq!(cycle.size_hint(), (usize::MAX, None));
}

#[test]
fn merge_over_a_source_of_values() {
    let source = Countdown { left: 7, bounds: (0, None) };
    // 7 6 5 4 3 2 1 halves to 3 3 2 2 1 1 0.
    let merged = source.adjacent_merge(|x| *x / 2, halves_equal).collect();
    assert_eq!(merged, vec![3, 2, 1, 0]);
}

#[test]
fn merge_size_hint_keeps_the_upper_bound_of_the_source() {
    let merged = Countdown { left: 3, bounds: (0, None) }.adjacent_merge(|x| *x, halves_equal);
    assert_eq!(merged.size_hint(), (0, None));
    let merged = Countdown { left: 3, bounds: (2, Some(8)) }.adjacent_merge(|x| *x, halves_equal);
    assert_eq!(merged.size_hint(), (1, Some(8)));
    let merged = Countdown { left: 3, bounds: (3, None) }.adjacent_merge(|x| *x, halves_equal);
    assert_eq!(merged.size_hint(), (1, None));
}

#[test]
fn merge_size_hint_adds_the_lookahead_to_the_bounds_of_the_source() {
    let mut merged =
        Countdown { left: 3, bounds: (0, Some(4)) }.adjacent_merge(|x| *x, halves_equal);
    assert_eq!(merged.size_hint(), (0, Some(4)));
    assert_eq!(merged.next(), Some(3));
    // 2 waits in the lookahead slot: at least one output, at most five.
    assert_eq!(merged.size_hint(), (1, Some(5)));
}

#[test]
fn merge_size_hint_gives_up_an_upper_bound_that_cannot_grow() {
    let mut merged = Countdown { left: 3, bounds: (usize::MAX, Some(usize::MAX)) }
        .adjacent_merge(|x| *x, halves_equal);
    assert_eq!(merged.next(), Some(3));
    assert_eq!(merged.size_hint(), (1, None));
}
