use std::cmp::Ordering;

use iai_callgrind_runner::runner::callgrind::model::Positions;
use iai_callgrind_runner::runner::callgrind::order::{insert_by_target_ids, sort_by_target_ids};
use iai_callgrind_runner::runner::callgrind::parser::CallgrindProperties;
use iai_callgrind_runner::runner::costs::Costs;

fn props(pid: Option<i32>, part: Option<u64>, thread: Option<usize>) -> CallgrindProperties {
    CallgrindProperties {
        costs_prototype: Costs::empty(),
        positions_prototype: Positions::empty(),
        pid,
        thread,
        part,
        desc: vec![],
        cmd: None,
        creator: None,
    }
}

#[test]
fn compare_target_ids_by_precedence() {
    let a = props(Some(1), Some(5), Some(9));
    let b = props(Some(2), Some(1), Some(1));
    assert_eq!(a.compare_target_ids(&b), Ordering::Less);
    assert_eq!(b.compare_target_ids(&a), Ordering::Greater);

    let c = props(Some(1), Some(2), Some(9));
    assert_eq!(c.compare_target_ids(&a), Ordering::Less);

    let d = props(Some(1), Some(5), Some(3));
    assert_eq!(d.compare_target_ids(&a), Ordering::Less);
    assert_eq!(a.compare_target_ids(&props(Some(1), Some(5), Some(9))), Ordering::Equal);
}

#[test]
fn compare_target_ids_missing_ids_come_first() {
    let none = props(None, None, None);
    let negative = props(Some(-5), None, None);
    assert_eq!(none.compare_target_ids(&negative), Ordering::Less);
    assert_eq!(negative.compare_target_ids(&none), Ordering::Greater);
    assert_eq!(none.compare_target_ids(&props(None, None, None)), Ordering::Equal);
    assert_eq!(
        props(Some(1), None, Some(0)).compare_target_ids(&props(Some(1), Some(0), None)),
        Ordering::Less
    );
}

#[test]
fn insert_by_target_ids_keeps_outputs_sorted() {
    let mut results: Vec<(String, CallgrindProperties, u32)> = vec![];
    insert_by_target_ids(&mut results, ("c".to_owned(), props(Some(3), None, None), 3));
    insert_by_target_ids(&mut results, ("a".to_owned(), props(Some(1), None, None), 1));
    insert_by_target_ids(&mut results, ("b2".to_owned(), props(Some(2), Some(2), None), 22));
    insert_by_target_ids(&mut results, ("b1".to_owned(), props(Some(2), Some(1), None), 21));
    insert_by_target_ids(&mut results, ("n".to_owned(), props(None, None, None), 0));
    let paths: Vec<&str> = results.iter().map(|r| r.0.as_str()).collect();
    assert_eq!(paths, vec!["n", "a", "b1", "b2", "c"]);
    let values: Vec<u32> = results.iter().map(|r| r.2).collect();
    assert_eq!(values, vec![0, 1, 21, 22, 3]);
}

#[test]
fn insert_by_target_ids_places_equal_ids_before_the_first_equal() {
    let mut results: Vec<(String, CallgrindProperties, u32)> = vec![];
    insert_by_target_ids(&mut results, ("first".to_owned(), props(Some(1), None, None), 1));
    insert_by_target_ids(&mut results, ("second".to_owned(), props(Some(1), None, None), 2));
    let paths: Vec<&str> = results.iter().map(|r| r.0.as_str()).collect();
    assert_eq!(paths, vec!["second", "first"]);
}

#[test]
fn sort_by_target_ids_orders_all_outputs() {
    let outputs = vec![
        ("c".to_owned(), props(Some(3), None, None), 3u32),
        ("a2".to_owned(), props(Some(1), Some(2), None), 12),
        ("n".to_owned(), props(None, None, None), 0),
        ("a1".to_owned(), props(Some(1), Some(1), None), 11),
        ("a1t".to_owned(), props(Some(1), Some(1), Some(0)), 110),
    ];
    let sorted = sort_by_target_ids(outputs);
    let paths: Vec<&str> = sorted.iter().map(|r| r.0.as_str()).collect();
    assert_eq!(paths, vec!["n", "a1", "a1t", "a2", "c"]);
}
