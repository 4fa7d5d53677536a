use non_empty_iter::{
    NonEmptyAdapter, NonEmptyIterator, NonEmptyIteratorExt, Peekable, Producer, Size,
    TryIntoNonEmptyIterator, VecIter,
};

fn ne<T>(items: Vec<T>) -> NonEmptyAdapter<Peekable<VecIter<T>>> {
    items.try_into_non_empty_iter().unwrap()
}

fn drain<P: Producer>(mut p: P) -> Vec<P::Item> {
    let mut out = Vec::new();
    while let Some(x) = p.next() {
        out.push(x);
    }
    out
}

#[test]
fn skip_drops_the_first_items() {
    assert_eq!(drain(ne(vec![1, 2, 3]).skip(Size::new(1).unwrap())), vec![2, 3]);
    assert!(drain(ne(vec![1, 2, 3]).skip(Size::new(5).unwrap())).is_empty());
}

#[test]
fn filter_keeps_matching_items() {
    assert_eq!(drain(ne(vec![1, 2, 3, 4]).filter(|x: &i32| *x % 2 == 0)), vec![2, 4]);
    assert!(drain(ne(vec![1, 3]).filter(|x: &i32| *x % 2 == 0)).is_empty());
}

#[test]
fn take_while_stops_at_the_first_failure() {
    assert_eq!(drain(ne(vec![1, 2, 5, 1]).take_while(|x: &i32| *x < 3)), vec![1, 2]);
    assert!(drain(ne(vec![5, 1]).take_while(|x: &i32| *x < 3)).is_empty());
}

#[test]
fn for_each_visits_every_item() {
    ne(vec![1, 2, 3]).for_each(|x: i32| assert!(x > 0));
}

#[test]
fn find_map_gives_the_first_present_result() {
    let found = ne(vec![1, 2, 3]).find_map(|x: i32| if x > 1 { Some(x * 10) } else { None });
    assert_eq!(found, Some(20));
    let missing = ne(vec![1]).find_map(|x: i32| if x > 1 { Some(x) } else { None });
    assert_eq!(missing, None);
}

#[test]
fn partition_splits_in_order() {
    let (even, odd) = ne(vec![1, 2, 3, 4]).partition(|x: &i32| *x % 2 == 0);
    assert_eq!(even, vec![2, 4]);
    assert_eq!(odd, vec![1, 3]);
}

#[test]
fn is_sorted_by_checks_neighbours() {
    assert!(ne(vec![1, 2, 2, 3]).is_sorted_by(|a: &i32, b: &i32| a <= b));
    assert!(!ne(vec![2, 1]).is_sorted_by(|a: &i32, b: &i32| a <= b));
    assert!(ne(vec![7]).is_sorted_by(|a: &i32, b: &i32| a <= b));
}

#[test]
fn by_key_selection_breaks_ties_like_max_and_min() {
    let pairs = vec![(1, 'a'), (3, 'b'), (3, 'c'), (1, 'd')];
    assert_eq!(ne(pairs.clone()).max_by_key(|p: &(i32, char)| p.0), (3, 'c'));
    assert_eq!(ne(pairs).min_by_key(|p: &(i32, char)| p.0), (1, 'a'));
}

#[test]
fn collect_into_appends() {
    let mut out = vec![0];
    ne(vec![1, 2]).collect_into(&mut out);
    assert_eq!(out, vec![0, 1, 2]);
}

#[test]
fn unzip_splits_pairs() {
    let (numbers, letters): (Vec<i32>, Vec<char>) = ne(vec![(1, 'a'), (2, 'b')]).unzip();
    assert_eq!(numbers, vec![1, 2]);
    assert_eq!(letters, vec!['a', 'b']);
}

#[test]
fn skip_while_starts_at_the_first_failure() {
    assert_eq!(drain(ne(vec![1, 2, 5, 1]).skip_while(|x: &i32| *x < 3)), vec![5, 1]);
    assert!(drain(ne(vec![1, 2]).skip_while(|x: &i32| *x < 3)).is_empty());
}

#[test]
fn map_while_stops_at_the_first_absent_result() {
    let items = drain(ne(vec![4, 2, 0, 8]).map_while(|x: i32| if x > 0 { Some(100 / x) } else { None }));
    assert_eq!(items, vec![25, 50]);
}

#[test]
fn filter_map_keeps_present_results() {
    let items = drain(ne(vec![4, 0, 2]).filter_map(|x: i32| if x > 0 { Some(100 / x) } else { None }));
    assert_eq!(items, vec![25, 50]);
    assert!(drain(ne(vec![0]).filter_map(|x: i32| if x > 0 { Some(x) } else { None })).is_empty());
}

#[test]
fn is_sorted_and_by_key() {
    assert!(ne(vec![1, 2, 2, 5]).is_sorted());
    assert!(!ne(vec![3, 2]).is_sorted());
    assert!(ne(vec![-1, 2, -3]).is_sorted_by_key(|x: i32| x * x));
    assert!(!ne(vec![-3, 2]).is_sorted_by_key(|x: i32| x * x));
}
