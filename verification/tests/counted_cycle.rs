use iterator_adapters::{CountedCycle, CycledIterator, SliceSource, Source};

#[test]
fn test_edge_cases() {
    let items: Vec<usize> = vec![];
    let mut empty = SliceSource::new(&items).cycle_counted();
    let mut count = 0;
    while empty.next().is_some() {
        count += 1;
    }
    assert_eq!(count, 0);

    let range: Vec<usize> = (0..100).collect();
    SliceSource::new(&range)
        .cycle_counted()
        .take(100)
        .into_iter()
        .enumerate()
        .for_each(|(i, (cy, o))| {
            assert_eq!(cy, 0);
            assert_eq!(i, *o);
        });

    // This sequence has no end; its first thousand pairs are looked at.
    let items = vec!['k'];
    let enumerated: Vec<(usize, &char)> = items.iter().enumerate().collect();
    SliceSource::new(&enumerated)
        .cycle_counted()
        .take(1000)
        .into_iter()
        .enumerate()
        .for_each(|(i, (cy, (inner, c)))| {
            assert_eq!(cy, i);
            assert_eq!('k', **c);
            assert_eq!(0, *inner);
        })
}

#[test]
fn first_seven_pairs_of_three_elements() {
    let items = vec![10, 20, 30];
    let mut cycle = SliceSource::new(&items).cycle_counted();
    let mut pairs = Vec::new();
    for _ in 0..7 {
        let (count, item) = cycle.next().unwrap();
        pairs.push((count, *item));
    }
    assert_eq!(
        pairs,
        vec![(0, 10), (0, 20), (0, 30), (1, 10), (1, 20), (1, 30), (2, 10)]
    );
}

#[test]
fn take_returns_the_pairs_in_order() {
    let items = vec![10, 20, 30];
    let pairs = SliceSource::new(&items).cycle_counted().take(7);
    assert_eq!(
        pairs,
        vec![
            (0, &10),
            (0, &20),
            (0, &30),
            (1, &10),
            (1, &20),
            (1, &30),
            (2, &10)
        ]
    );
}

#[test]
fn take_goes_on_where_the_last_pull_stopped() {
    let items = vec!['a', 'b'];
    let mut cycle = SliceSource::new(&items).cycle_counted();
    assert_eq!(cycle.take(3), vec![(0, &'a'), (0, &'b'), (1, &'a')]);
    assert_eq!(cycle.next(), Some((1, &'b')));
    assert_eq!(cycle.take(0), vec![]);
    assert_eq!(cycle.take(2), vec![(2, &'a'), (2, &'b')]);
}

#[test]
fn new_starts_before_the_first_pull() {
    let items = vec![1u8, 2u8];
    let mut cycle = CountedCycle::new(SliceSource::new(&items));
    assert_eq!(cycle.next(), Some((0, &1u8)));
    assert_eq!(cycle.next(), Some((0, &2u8)));
    assert_eq!(cycle.next(), Some((1, &1u8)));
}

#[test]
fn count_is_the_number_of_completed_passes() {
    let items = vec!["x", "y", "z"];
    let mut cycle = SliceSource::new(&items).cycle_counted();
    for n in 0..20 {
        assert_eq!(cycle.next(), Some((n / 3, &items[n % 3])));
    }
}

#[test]
fn single_element_counts_the_pulls() {
    let items = vec![7];
    let mut cycle = SliceSource::new(&items).cycle_counted();
    for n in 0..50 {
        assert_eq!(cycle.next(), Some((n, &7)));
    }
}

#[test]
fn empty_cycle_gives_nothing_on_every_pull() {
    let items: Vec<i32> = vec![];
    let mut cycle = SliceSource::new(&items).cycle_counted();
    for _ in 0..25 {
        assert_eq!(cycle.next(), None);
    }
    assert_eq!(cycle.take(5), vec![]);
    assert_eq!(cycle.next(), None);
}

#[test]
fn cycle_starts_where_the_source_stands() {
    let items = vec![10, 20, 30];
    let mut source = SliceSource::new(&items);
    assert_eq!(source.next(), Some(&10));
    // The snapshot is taken now, so a pass is 20, 30.
    let pairs = source.cycle_counted().take(5);
    assert_eq!(pairs, vec![(0, &20), (0, &30), (1, &20), (1, &30), (2, &20)]);
}

#[test]
fn cycle_over_an_exhausted_source_is_empty() {
    let items = vec![1];
    let mut source = SliceSource::new(&items);
    assert_eq!(source.next(), Some(&1));
    let mut cycle = source.cycle_counted();
    assert_eq!(cycle.size_hint(), (0, Some(0)));
    assert_eq!(cycle.next(), None);
    assert_eq!(cycle.next(), None);
}

#[test]
fn size_hint_of_an_empty_cycle() {
    let items: Vec<i32> = vec![];
    let mut cycle = SliceSource::new(&items).cycle_counted();
    assert_eq!(cycle.size_hint(), (0, Some(0)));
    assert_eq!(cycle.next(), None);
    assert_eq!(cycle.size_hint(), (0, Some(0)));
}

#[test]
fn size_hint_of_a_cycle_with_elements_has_no_end() {
    let items = vec![1, 2];
    let mut cycle = SliceSource::new(&items).cycle_counted();
    assert_eq!(cycle.size_hint(), (usize::MAX, None));
    // The estimate is that of the snapshot, not of the current pass.
    assert_eq!(cycle.take(2).len(), 2);
    assert_eq!(cycle.size_hint(), (usize::MAX, None));
}

#[test]
fn clone_goes_its_own_way() {
    let items = vec![1, 2];
    let mut cycle = SliceSource::new(&items).cycle_counted();
    assert_eq!(cycle.next(), Some((0, &1)));
    let mut twin = cycle.clone();
    assert_eq!(cycle.take(3), vec![(0, &2), (1, &1), (1, &2)]);
    assert_eq!(twin.next(), Some((0, &2)));
}
