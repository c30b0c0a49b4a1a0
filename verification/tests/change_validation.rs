use rusty_bells::permutation_graph::permutation_node::change_validation::is_valid_change;

#[test]
fn can_tell_a_valid_change() {
    let first = [0, 1, 2];
    let second = [0, 2, 1];
    let third = [2, 0, 1];
    let fourth = [2, 1, 0];
    assert!(is_valid_change(&first, &second));
    assert!(is_valid_change(&second, &third));
    assert!(is_valid_change(&third, &fourth));
}

#[test]
fn can_tell_an_invalid_change() {
    let first = [0, 1, 2];
    let second = [0, 2, 1];
    let third = [2, 0, 1];
    let fourth = [2, 1, 0];
    assert!(!is_valid_change(&first, &third));
    assert!(!is_valid_change(&second, &fourth));
    assert!(!is_valid_change(&first, &fourth));
}

#[test]
fn handles_zero_length_changes() {
    assert!(is_valid_change(&[], &[]));
}

#[test]
fn handles_length_one() {
    assert!(is_valid_change(&[0], &[0]));
}

#[test]
fn handles_length_two() {
    assert!(is_valid_change(&[0, 1], &[0, 1]));
    assert!(is_valid_change(&[0, 1], &[1, 0]));
}

#[test]
fn two_bell_rows_are_mutually_reachable() {
    assert!(is_valid_change(&[1, 2], &[2, 1]));
    assert!(is_valid_change(&[2, 1], &[1, 2]));
}

#[test]
fn three_bell_rounds_reaches_exactly_two_rows() {
    let rounds = [1, 2, 3];
    assert!(is_valid_change(&rounds, &[1, 3, 2]));
    assert!(is_valid_change(&rounds, &[2, 1, 3]));
    assert!(!is_valid_change(&rounds, &[2, 3, 1]));
    assert!(!is_valid_change(&rounds, &[3, 1, 2]));
    assert!(!is_valid_change(&rounds, &[3, 2, 1]));
}

#[test]
fn identical_rows_are_a_valid_change() {
    assert!(is_valid_change(&[2, 3, 1], &[2, 3, 1]));
    assert!(is_valid_change(&[4, 1, 3, 2], &[4, 1, 3, 2]));
}
