use non_empty_iter::{
    NonEmptyAdapter, NonEmptyIterator, NonEmptyIteratorExt, Producer, Size,
    TryIntoNonEmptyIterator, VecIter, once, once_with, repeat, repeat_n, repeat_with, successors,
};

fn size(n: usize) -> Size {
    Size::new(n).unwrap()
}

fn drain<P: Producer>(mut p: P) -> Vec<P::Item> {
    let mut out = Vec::new();
    while let Some(x) = p.next() {
        out.push(x);
    }
    out
}

#[test]
fn once_yields_its_value_exactly_once() {
    let items: Vec<i32> = once(5).collect();
    assert_eq!(items, vec![5]);
}

#[test]
fn once_with_yields_the_result_exactly_once() {
    let items: Vec<i32> = once_with(|| 6 * 7).collect();
    assert_eq!(items, vec![42]);
}

#[test]
fn repeat_taken_yields_copies() {
    let items: Vec<i32> = repeat(7).take(size(3)).collect();
    assert_eq!(items, vec![7, 7, 7]);
}

#[test]
fn repeat_with_taken_yields_results() {
    let items: Vec<u8> = repeat_with(|| 4u8).take(size(2)).collect();
    assert_eq!(items, vec![4, 4]);
}

#[test]
fn repeat_n_yields_count_copies() {
    let items: Vec<&str> = repeat_n("a", size(3)).collect();
    assert_eq!(items, vec!["a", "a", "a"]);
    assert_eq!(repeat_n(1, size(1)).count().get(), 1);
}

#[test]
fn successors_stop_when_the_function_gives_none() {
    let items: Vec<u32> =
        successors(1u32, |x: &u32| if *x < 8 { Some(*x * 2) } else { None }).collect();
    assert_eq!(items, vec![1, 2, 4, 8]);
}

#[test]
fn successors_always_yield_the_initial_item() {
    let items: Vec<u32> = successors(9u32, |_: &u32| None).collect();
    assert_eq!(items, vec![9]);
}

#[test]
fn checked_conversion_of_empty_reports_absence() {
    let empty: Vec<i32> = Vec::new();
    assert!(empty.try_into_non_empty_iter().is_none());
}

#[test]
fn checked_conversion_of_one_item_drains_to_it() {
    let converted = vec![11].try_into_non_empty_iter();
    assert!(converted.is_some());
    let items: Vec<i32> = converted.unwrap().collect();
    assert_eq!(items, vec![11]);
}

#[test]
fn checked_conversion_keeps_every_item_in_order() {
    let items: Vec<i32> = vec![3, 1, 2].try_into_non_empty_iter().unwrap().collect();
    assert_eq!(items, vec![3, 1, 2]);
}

#[test]
fn checked_conversion_of_a_producer() {
    let producer = VecIter::new(vec!['x', 'y']);
    let items: Vec<char> = producer.try_into_non_empty_iter().unwrap().collect();
    assert_eq!(items, vec!['x', 'y']);
    let empty = VecIter::<char>::new(Vec::new());
    assert!(empty.try_into_non_empty_iter().is_none());
}

#[test]
fn adapter_carries_a_non_empty_producer() {
    let adapted = NonEmptyAdapter::new(VecIter::new(vec![4, 5]));
    let items: Vec<i32> = adapted.collect();
    assert_eq!(items, vec![4, 5]);
}

#[test]
fn consume_returns_first_and_rest() {
    let (first, rest) = vec![1, 2, 3].try_into_non_empty_iter().unwrap().consume();
    assert_eq!(first, 1);
    assert_eq!(drain(rest), vec![2, 3]);
}

#[test]
fn consume_of_one_item_leaves_nothing() {
    let (first, rest) = once('q').consume();
    assert_eq!(first, 'q');
    assert!(drain(rest).is_empty());
}

#[test]
fn vec_iter_yields_in_order() {
    assert_eq!(drain(VecIter::new(vec![1, 2, 3])), vec![1, 2, 3]);
}

#[test]
fn size_rejects_zero() {
    assert!(Size::new(0).is_none());
    assert_eq!(Size::new(5).unwrap().get(), 5);
    assert_eq!(Size::from_positive(2).get(), 2);
}
