use rusty_bells::permutation_graph::method_iterator::comparison_index_store::ComparisonIndexStoreBuilder;
use rusty_bells::permutation_graph::method_iterator::comparison_status::ComparisonStatus;
use std::sync::mpsc;

#[test]
fn comparison_index_store_builder_can_create_new() {
    ComparisonIndexStoreBuilder::new();
}

#[test]
fn can_build_a_comparison_index_store() {
    let (index_sender, index_receiver) = mpsc::channel();
    let (status_sender, status_receiver) = mpsc::channel();
    let builder = ComparisonIndexStoreBuilder::new();
    let test_last_index = 5;
    let test_start_index = 1;

    let index_store = builder
        .last_index(test_last_index)
        .start_index(test_start_index)
        .status_sender(status_sender)
        .index_receiver(index_receiver)
        .build();

    assert_eq!(index_store.last_index, test_last_index);
    assert_eq!(index_store.current_index, test_start_index);
    assert_eq!(index_store.comparison_index, test_start_index + 1);

    let sent_index = 8;
    index_sender.send(sent_index).unwrap();
    assert_eq!(index_store.index_receiver.recv().unwrap(), sent_index);

    let send_num = 4;
    index_store
        .status_sender
        .send(ComparisonStatus::NextIndex(send_num))
        .unwrap();
    assert_eq!(
        status_receiver.recv().unwrap(),
        ComparisonStatus::NextIndex(send_num)
    );
}
