use non_empty_iter::{
    NonEmptyAdapter, NonEmptyIterator, NonEmptyIteratorExt, Peekable, Producer, Size,
    TryIntoNonEmptyIterator, VecIter, chain, once, repeat, zip,
};

fn size(n: usize) -> Size {
    Size::new(n).unwrap()
}

fn ne(items: Vec<i32>) -> NonEmptyAdapter<Peekable<VecIter<i32>>> {
    items.try_into_non_empty_iter().unwrap()
}

fn drain<P: Producer>(mut p: P) -> Vec<P::Item> {
    let mut out = Vec::new();
    while let Some(x) = p.next() {
        out.push(x);
    }
    out
}

#[test]
fn take_one_yields_only_the_first() {
    let items: Vec<i32> = ne(vec![4, 5, 6]).take(size(1)).collect();
    assert_eq!(items, vec![4]);
}

#[test]
fn take_more_than_there_are_yields_all() {
    let items: Vec<i32> = ne(vec![4, 5]).take(size(10)).collect();
    assert_eq!(items, vec![4, 5]);
}

#[test]
fn step_by_one_keeps_everything() {
    let items: Vec<i32> = ne(vec![1, 2, 3, 4]).step_by(size(1)).collect();
    assert_eq!(items, vec![1, 2, 3, 4]);
}

#[test]
fn step_by_two_keeps_every_other_from_the_first() {
    let items: Vec<i32> = ne(vec![1, 2, 3, 4, 5]).step_by(size(2)).collect();
    assert_eq!(items, vec![1, 3, 5]);
}

#[test]
fn zip_stops_at_the_shorter() {
    let pairs: Vec<(i32, i32)> = ne(vec![1, 2, 3]).zip(ne(vec![10, 20])).collect();
    assert_eq!(pairs, vec![(1, 10), (2, 20)]);
    let pairs: Vec<(i32, i32)> = zip(ne(vec![1]), ne(vec![7, 8, 9])).collect();
    assert_eq!(pairs, vec![(1, 7)]);
}

#[test]
fn zip_of_equal_lengths_pairs_all() {
    let pairs: Vec<(i32, char)> = ne(vec![1, 2])
        .zip(vec!['a', 'b'].try_into_non_empty_iter().unwrap())
        .collect();
    assert_eq!(pairs, vec![(1, 'a'), (2, 'b')]);
}

#[test]
fn flat_map_yields_each_run_in_order() {
    let items: Vec<i32> = ne(vec![0, 1])
        .flat_map(|x: i32| if x == 0 { ne(vec![1, 2]) } else { ne(vec![3]) })
        .collect();
    assert_eq!(items, vec![1, 2, 3]);
}

#[test]
fn flatten_yields_each_inner_in_order() {
    let nested = vec![ne(vec![1]), ne(vec![2, 3]), ne(vec![4])];
    let items: Vec<i32> = nested.try_into_non_empty_iter().unwrap().flatten().collect();
    assert_eq!(items, vec![1, 2, 3, 4]);
}

#[test]
fn cycle_of_two_taken_five() {
    let items: Vec<char> =
        vec!['a', 'b'].try_into_non_empty_iter().unwrap().cycle().take(size(5)).collect();
    assert_eq!(items, vec!['a', 'b', 'a', 'b', 'a']);
}

#[test]
fn cycle_of_one_repeats_it() {
    let items: Vec<i32> = ne(vec![9]).cycle().take(size(3)).collect();
    assert_eq!(items, vec![9, 9, 9]);
}

#[test]
fn chain_links_possibly_empty_after() {
    let items: Vec<i32> = ne(vec![1, 2]).chain(vec![3, 4]).collect();
    assert_eq!(items, vec![1, 2, 3, 4]);
    let items: Vec<i32> = chain(once(1), Vec::new()).collect();
    assert_eq!(items, vec![1]);
}

#[test]
fn enumerate_counts_from_zero() {
    let items: Vec<(usize, char)> =
        vec!['x', 'y', 'z'].try_into_non_empty_iter().unwrap().enumerate().collect();
    assert_eq!(items, vec![(0, 'x'), (1, 'y'), (2, 'z')]);
}

#[test]
fn map_applies_the_function() {
    let items: Vec<i32> = ne(vec![1, 2, 3]).map(|x: i32| x * 10).collect();
    assert_eq!(items, vec![10, 20, 30]);
}

#[test]
fn inspect_passes_items_through() {
    let items: Vec<i32> = ne(vec![5, 6]).inspect(|_: &i32| {}).collect();
    assert_eq!(items, vec![5, 6]);
}

#[test]
fn fuse_passes_items_through() {
    let items: Vec<i32> = ne(vec![5, 6]).fuse().collect();
    assert_eq!(items, vec![5, 6]);
}

#[test]
fn peeked_holds_first_and_rest() {
    let mut peeked = ne(vec![1, 2, 3]).peeked();
    assert_eq!(*peeked.peek(), 1);
    *peeked.peek_mut() = 100;
    let items: Vec<i32> = peeked.collect();
    assert_eq!(items, vec![100, 2, 3]);
    let (item, rest) = ne(vec![7, 8]).peeked().get();
    assert_eq!(item, 7);
    assert_eq!(drain(rest), vec![8]);
}

#[test]
fn infinite_repeat_zipped_with_finite() {
    let pairs: Vec<(i32, i32)> = ne(vec![1, 2]).zip(repeat(0)).collect();
    assert_eq!(pairs, vec![(1, 0), (2, 0)]);
}

#[test]
fn rev_yields_last_first() {
    let items: Vec<i32> = ne(vec![1, 2, 3]).rev().collect();
    assert_eq!(items, vec![3, 2, 1]);
    let items: Vec<i32> = once(4).rev().collect();
    assert_eq!(items, vec![4]);
}

#[test]
fn rev_of_an_adapted_vector() {
    let adapted = NonEmptyAdapter::new(VecIter::new(vec!['a', 'b']));
    let items: Vec<char> = adapted.rev().collect();
    assert_eq!(items, vec!['b', 'a']);
}

#[test]
fn copied_and_cloned_dereference() {
    let data = vec![1, 2, 3];
    let refs: Vec<&i32> = data.iter().collect();
    let items: Vec<i32> = refs.clone().try_into_non_empty_iter().unwrap().copied().collect();
    assert_eq!(items, vec![1, 2, 3]);
    let items: Vec<i32> = refs.try_into_non_empty_iter().unwrap().cloned().collect();
    assert_eq!(items, vec![1, 2, 3]);
}

#[test]
fn peeking_an_empty_producer_reports_nothing() {
    let mut p = Peekable::new(VecIter::<i32>::new(Vec::new()));
    assert!(p.peek().is_none());
    assert!(p.next().is_none());
    let mut q = Peekable::new(VecIter::new(vec![8, 9]));
    assert_eq!(q.peek(), Some(&8));
    assert_eq!(drain(q), vec![8, 9]);
}

#[test]
fn chains_of_adapters_always_yield_something() {
    let first = ne(vec![1, 2, 3])
        .map(|x: i32| x + 1)
        .chain(Vec::new())
        .step_by(size(2))
        .take(size(1))
        .fuse()
        .consume()
        .0;
    assert_eq!(first, 2);
    let pairs = ne(vec![5])
        .zip(repeat(1))
        .enumerate()
        .map(|p: (usize, (i32, i32))| p.1 .0)
        .cycle()
        .take(size(2))
        .count();
    assert_eq!(pairs.get(), 2);
    let nested = ne(vec![1, 2]).flat_map(|x: i32| once(x).chain(vec![x * 10])).last();
    assert_eq!(nested, 20);
}
