use rusty_bells::permutation_graph::permutation_node::PermutationNode;
use rusty_bells::permutation_graph::utility::{are_unique, factorial};

fn set_up_node_vector(n: usize) -> Vec<PermutationNode> {
    let rows: Vec<Vec<u8>> = match n {
        2 => vec![vec![1, 2], vec![2, 1]],
        3 => vec![
            vec![1, 2, 3],
            vec![1, 3, 2],
            vec![2, 1, 3],
            vec![2, 3, 1],
            vec![3, 1, 2],
            vec![3, 2, 1],
        ],
        _ => panic!("only small bell counts are set up here"),
    };
    rows.into_iter().map(PermutationNode::new).collect()
}

#[test]
fn can_check_if_permutations_vector_has_unique_members() {
    let nodes = set_up_node_vector(3);
    assert!(are_unique(&nodes));
}

#[test]
fn can_check_if_permutations_vector_has_duplicate_members() {
    let mut nodes = set_up_node_vector(3);
    nodes.push(PermutationNode::new(vec![1, 2, 3]));
    assert!(!are_unique(&nodes));
}

#[test]
fn can_check_a_single_length_vector_is_unique() {
    let nodes = vec![PermutationNode::new(vec![1, 2, 3])];
    assert!(are_unique(&nodes));
}

#[test]
fn can_check_a_zero_length_vector_is_unique() {
    let empty: Vec<u8> = vec![];
    assert!(are_unique(&empty));
}

#[test]
fn can_get_the_factorial_of_a_number() {
    assert_eq!(factorial(0), 0);
    assert_eq!(factorial(1), 1);
    assert_eq!(factorial(2), 2);
    assert_eq!(factorial(3), 6);
    assert_eq!(factorial(4), 24);
}

#[test]
fn can_get_the_largest_factorial_that_fits() {
    assert_eq!(factorial(20), 2432902008176640000);
}
