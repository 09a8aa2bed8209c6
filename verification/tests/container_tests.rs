//! The growable-collection capability on the collection types it is meant
//! for: order-preserving sequences and deduplicating sets.

use std::collections::{BTreeSet, VecDeque};

use docquery::container::Container;

#[test]
fn vec_container_appends_in_order() {
    let mut c: Vec<i64> = Container::empty();
    c.reserve(10);
    Container::extend_one(&mut c, 3);
    Container::extend_one(&mut c, 1);
    Container::extend_one(&mut c, 2);
    assert_eq!(c, vec![3, 1, 2]);
}

#[test]
fn vecdeque_container_appends_at_the_back() {
    let mut c: VecDeque<String> = Container::empty();
    c.reserve(2);
    Container::extend_one(&mut c, "a".to_string());
    Container::extend_one(&mut c, "b".to_string());
    assert_eq!(c.into_iter().collect::<Vec<_>>(), vec!["a", "b"]);
}

#[test]
fn btreeset_container_deduplicates() {
    let mut c: BTreeSet<i64> = Container::empty();
    Container::reserve(&mut c, 100);
    Container::extend_one(&mut c, 2);
    Container::extend_one(&mut c, 1);
    Container::extend_one(&mut c, 2);
    assert_eq!(c.into_iter().collect::<Vec<_>>(), vec![1, 2]);
}
