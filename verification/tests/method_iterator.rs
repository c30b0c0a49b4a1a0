use rusty_bells::permutation_graph::method_iterator::comparison_index_store::ComparisonIndexStoreBuilder;
use rusty_bells::permutation_graph::method_iterator::{
    new, pair_matching_half_methods, FullMethodIterator, OneMethodIterator, ZeroMethodIterator,
};

#[test]
fn can_create_a_zero_method_iterator() {
    ZeroMethodIterator::new();
}

#[test]
fn can_create_a_one_method_iterator() {
    let methods = vec![vec![0, 1]];
    OneMethodIterator::new(methods);
}

#[test]
fn can_create_a_full_method_iterator() {
    let methods = vec![vec![0, 1], vec![0, 1]];
    FullMethodIterator::new(methods);
}

#[test]
fn can_iterate_through_methods() {
    let half_method1 = vec![0, 1, 4, 5];
    let half_method2 = vec![0, 2, 3, 5];

    let mut iterator = new(vec![half_method1, half_method2]);
    let full_method1 = iterator.next().expect("There should be a method");
    let full_method2 = iterator.next().expect("There should be a method");
    let end = iterator.next();

    assert_eq!(full_method1, vec![0, 1, 4, 5, 3, 2, 0]);
    assert_eq!(full_method2, vec![0, 2, 3, 5, 4, 1, 0]);
    assert_eq!(end, None);
}

#[test]
fn can_iterate_through_two_bell_methods() {
    let two_bell_half = vec![0, 1];
    let mut iterator = new(vec![two_bell_half]);

    let full_method = iterator.next().expect("There should be a method");
    let end = iterator.next();

    assert_eq!(full_method, vec![0, 1, 0]);
    assert_eq!(end, None);
}

#[test]
fn can_iterate_through_1_bell_methods() {
    let one_bell_half = vec![0];
    let mut iterator = new(vec![one_bell_half]);

    let full_method = iterator.next().expect("There should be a method");
    let end = iterator.next();

    assert_eq!(full_method, vec![0]);
    assert_eq!(end, None);
}

#[test]
fn can_iterate_through_zero_bell_methods() {
    let mut iterator = new(vec![]);

    let full_method = iterator.next().expect("There should be a method");
    let end = iterator.next();

    assert_eq!(full_method, vec![]);
    assert_eq!(end, None);
}

#[test]
fn fatal_input_shapes_are_rejected() {
    let single_long = vec![vec![0, 1, 0]];
    assert!(!OneMethodIterator::validate_half_method_input(&single_long));

    let single = vec![vec![0, 1]];
    assert!(!FullMethodIterator::validate_half_method_input(&single));
    assert!(OneMethodIterator::validate_half_method_input(&single));

    let pair = vec![vec![0, 1], vec![0, 1]];
    assert!(FullMethodIterator::validate_half_method_input(&pair));
    assert!(!OneMethodIterator::validate_half_method_input(&pair));
}

#[test]
fn mirror_of_each_match_is_yielded() {
    let half_method1 = vec![0, 1, 4, 5];
    let half_method2 = vec![0, 2, 3, 5];

    let mut iterator = new(vec![half_method1, half_method2]);
    let first = iterator.next().expect("There should be a method");
    let second = iterator.next().expect("There should be a method");

    let mut reversed_first = first.clone();
    reversed_first.reverse();
    assert_eq!(second, reversed_first);
}

#[test]
fn pair_matching_finds_the_closing_pair() {
    let half_methods = vec![vec![0, 1, 4, 5], vec![0, 2, 3, 5]];
    let (_index_sender, index_receiver) = std::sync::mpsc::channel();
    let (status_sender, _status_receiver) = std::sync::mpsc::channel();
    let mut index_store = ComparisonIndexStoreBuilder::new()
        .last_index(1)
        .start_index(0)
        .status_sender(status_sender)
        .index_receiver(index_receiver)
        .build();

    let found = pair_matching_half_methods(&half_methods, &mut index_store);

    assert_eq!(found, Some(vec![0, 1, 4, 5, 3, 2, 0]));
    assert_eq!(index_store.get_comparison_index(), 2);
}
