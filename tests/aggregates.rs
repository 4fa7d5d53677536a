use std::cmp::Ordering;

use non_empty_iter::{NonEmptyIterator, Size, TryIntoNonEmptyIterator, once};

fn ne(
    items: Vec<i32>,
) -> non_empty_iter::NonEmptyAdapter<non_empty_iter::Peekable<non_empty_iter::VecIter<i32>>> {
    items.try_into_non_empty_iter().unwrap()
}

#[test]
fn max_min_of_several() {
    assert_eq!(ne(vec![3, 9, 2, 9, 1]).max(), 9);
    assert_eq!(ne(vec![3, 9, 2, 9, 1]).min(), 1);
}

#[test]
fn aggregates_of_a_single_item_return_it() {
    assert_eq!(once(4).max(), 4);
    assert_eq!(once(4).min(), 4);
    assert_eq!(once(4).last(), 4);
    assert_eq!(once(4).reduce(|a: i32, b: i32| a - b), 4);
}

#[test]
fn last_is_the_final_item() {
    assert_eq!(ne(vec![1, 2, 3]).last(), 3);
}

#[test]
fn reduce_folds_from_the_first() {
    assert_eq!(ne(vec![10, 3, 2]).reduce(|a: i32, b: i32| a - b), 5);
}

#[test]
fn fold_starts_from_initial() {
    assert_eq!(ne(vec![1, 2, 3]).fold(100, |a: i32, x: i32| a + x), 106);
}

#[test]
fn count_is_never_zero() {
    assert_eq!(ne(vec![1, 2, 3]).count().get(), 3);
    assert_eq!(once(1).count().get(), 1);
}

#[test]
fn max_by_keeps_the_last_of_equals() {
    let pairs = vec![(1, 'a'), (3, 'b'), (3, 'c'), (2, 'd')];
    let best = pairs
        .try_into_non_empty_iter()
        .unwrap()
        .max_by(|x: &(i32, char), y: &(i32, char)| x.0.cmp(&y.0));
    assert_eq!(best, (3, 'c'));
}

#[test]
fn min_by_keeps_the_first_of_equals() {
    let pairs = vec![(2, 'a'), (1, 'b'), (1, 'c')];
    let best = pairs
        .try_into_non_empty_iter()
        .unwrap()
        .min_by(|x: &(i32, char), y: &(i32, char)| x.0.cmp(&y.0));
    assert_eq!(best, (1, 'b'));
}

#[test]
fn all_any_none() {
    assert!(ne(vec![2, 4]).all(|x: i32| x % 2 == 0));
    assert!(!ne(vec![2, 3]).all(|x: i32| x % 2 == 0));
    assert!(ne(vec![1, 3, 4]).any(|x: i32| x % 2 == 0));
    assert!(!ne(vec![1, 3]).any(|x: i32| x % 2 == 0));
    assert!(ne(vec![1, 3]).none(|x: i32| x % 2 == 0));
}

#[test]
fn find_and_position_give_the_first_match() {
    assert_eq!(ne(vec![1, 4, 6]).find(|x: &i32| *x > 3), Some(4));
    assert_eq!(ne(vec![1, 2]).find(|x: &i32| *x > 3), None);
    assert_eq!(ne(vec![1, 4, 6]).position(|x: i32| x > 3), Some(1));
    assert_eq!(ne(vec![1, 2]).position(|x: i32| x > 3), None);
}

#[test]
fn nth_counts_from_zero() {
    assert_eq!(ne(vec![5, 6, 7]).nth(Size::new(2).unwrap()), Some(7));
    assert_eq!(ne(vec![5, 6, 7]).nth(Size::new(3).unwrap()), None);
}

#[test]
fn exhaust_consumes_everything() {
    ne(vec![1, 2, 3]).exhaust();
}

#[test]
fn comparisons_are_lexicographic() {
    assert!(ne(vec![1, 2]).eq(vec![1, 2]));
    assert!(!ne(vec![1, 2]).eq(vec![1]));
    assert!(ne(vec![1, 2]).ne(vec![1, 3]));
    assert!(ne(vec![1, 2]).lt(vec![1, 3]));
    assert!(!ne(vec![1, 2]).lt(vec![1, 2]));
    assert!(ne(vec![1, 2]).le(vec![1, 2]));
    assert!(ne(vec![2]).gt(vec![1, 9]));
    assert!(ne(vec![1, 2]).ge(vec![1]));
    assert_eq!(ne(vec![1]).partial_cmp(vec![1, 0]), Some(Ordering::Less));
    assert_eq!(ne(vec![3, 1]).cmp(vec![3, 1]), Ordering::Equal);
    assert_eq!(ne(vec![3, 2]).cmp(vec![3, 1]), Ordering::Greater);
}
