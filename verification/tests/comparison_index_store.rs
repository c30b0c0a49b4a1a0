use rusty_bells::permutation_graph::method_iterator::comparison_index_store::{
    ComparisonIndexStore, ComparisonIndexStoreBuilder,
};
use rusty_bells::permutation_graph::method_iterator::comparison_status::ComparisonStatus;
use std::sync::mpsc::{self, Receiver, Sender};

fn create_builder_with_channels() -> (
    ComparisonIndexStoreBuilder,
    Sender<usize>,
    Receiver<ComparisonStatus>,
) {
    let (index_sender, index_receiver) = mpsc::channel();
    let (status_sender, status_receiver) = mpsc::channel();
    let builder = ComparisonIndexStoreBuilder::new()
        .last_index(0)
        .start_index(0)
        .status_sender(status_sender)
        .index_receiver(index_receiver);

    (builder, index_sender, status_receiver)
}

fn assert_indexes(index_store: &ComparisonIndexStore, current: usize, cmp: usize) {
    assert_eq!(index_store.get_current_index(), current);
    assert_eq!(index_store.get_comparison_index(), cmp);
}

#[test]
fn comparison_index_store_can_create_new() {
    let (_, test_receiver) = mpsc::channel();
    let (test_sender, _) = mpsc::channel();
    ComparisonIndexStore::new(5, 0, test_sender, test_receiver);
}

#[test]
fn can_get_indexes() {
    let index_store = create_builder_with_channels()
        .0
        .last_index(5)
        .start_index(0)
        .build();

    assert_eq!(index_store.get_current_index(), 0);
    assert_eq!(index_store.get_comparison_index(), 1);
}

#[test]
fn can_start_from_further_along() {
    let index_store = create_builder_with_channels()
        .0
        .last_index(5)
        .start_index(2)
        .build();

    assert_eq!(index_store.get_current_index(), 2);
    assert_eq!(index_store.get_comparison_index(), 3);
}

#[test]
fn can_increment_indexes() {
    let (builder, index_sender, status_receiver) = create_builder_with_channels();

    let mut index_store = builder.last_index(3).start_index(0).build();

    assert_indexes(&index_store, 0, 1);

    index_store.increment_indexes();
    assert_indexes(&index_store, 0, 2);

    index_store.increment_indexes();
    assert_indexes(&index_store, 0, 3);

    index_store.increment_indexes();
    assert_indexes(&index_store, 0, 4);

    index_sender.send(2).unwrap();
    index_store.increment_indexes();

    assert_eq!(
        status_receiver.recv().unwrap(),
        ComparisonStatus::NextIndex(0)
    );
    assert_indexes(&index_store, 2, 3);

    index_store.increment_indexes();
    assert_indexes(&index_store, 2, 4);

    index_sender.send(3).unwrap();
    index_store.increment_indexes();

    assert_eq!(
        status_receiver.recv().unwrap(),
        ComparisonStatus::NextIndex(0)
    );
    assert_indexes(&index_store, 3, 4);
}

#[test]
fn can_check_if_still_running_overall() {
    let (builder, index_sender, status_receiver) = create_builder_with_channels();

    let mut index_store = builder.last_index(2).start_index(0).build();

    assert!(index_store.is_running());

    index_store.increment_indexes();
    assert!(index_store.is_running());

    index_store.increment_indexes();
    assert!(index_store.is_running());

    index_sender.send(1).unwrap();
    index_store.increment_indexes();

    assert_eq!(
        status_receiver.recv().unwrap(),
        ComparisonStatus::NextIndex(0)
    );
    assert!(index_store.is_running());

    index_store.increment_indexes();
    assert!(index_store.is_running());

    index_sender.send(2).unwrap();
    index_store.increment_indexes();

    assert_eq!(
        status_receiver.recv().unwrap(),
        ComparisonStatus::NextIndex(0)
    );
    assert!(!index_store.is_running());
}

#[test]
fn can_check_if_current_comparison_still_running() {
    let (builder, index_sender, status_receiver) = create_builder_with_channels();

    let mut index_store = builder.last_index(2).start_index(0).build();

    assert!(index_store.is_running_comparison());

    index_store.increment_indexes();
    assert!(index_store.is_running_comparison());

    index_store.increment_indexes();
    assert!(!index_store.is_running_comparison());

    index_sender.send(1).unwrap();
    index_store.increment_indexes();

    assert_eq!(
        status_receiver.recv().unwrap(),
        ComparisonStatus::NextIndex(0)
    );
    assert!(index_store.is_running_comparison());
}

#[test]
fn does_not_run_comparison_if_starting_index_is_greater_than_or_equal_to_last_index() {
    let builder1 = create_builder_with_channels().0;
    let builder2 = create_builder_with_channels().0;
    let builder3 = create_builder_with_channels().0;
    let index_store1 = builder1.last_index(0).start_index(1).build();
    let index_store2 = builder2.last_index(5).start_index(9).build();
    let index_store3 = builder3.last_index(4).start_index(4).build();

    assert!(!index_store1.is_running());
    assert!(!index_store1.is_running_comparison());

    assert!(!index_store2.is_running());
    assert!(!index_store2.is_running_comparison());

    assert!(!index_store3.is_running());
    assert!(!index_store3.is_running_comparison());
}
