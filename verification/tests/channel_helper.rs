use rusty_bells::permutation_graph::method_iterator::channel_helper::{
    recv_or_error, send_or_error,
};
use std::sync::mpsc::channel;

#[test]
fn can_send_a_message() {
    let msg = 5;
    let (sender, receiver) = channel();
    send_or_error(&sender, msg);

    assert_eq!(receiver.recv().unwrap(), msg);
}

#[test]
fn can_receive_a_message() {
    let msg = 7;
    let (sender, receiver) = channel();

    sender.send(msg).unwrap();
    assert_eq!(recv_or_error(&receiver), msg);
}
