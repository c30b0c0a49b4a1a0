use rusty_bells::permutation_graph::permutation_node::PermutationNode;
use rusty_bells::PermutationGraph;

fn set_up_node_vector(n: usize) -> Vec<PermutationNode> {
    let rows: Vec<Vec<u8>> = match n {
        2 => vec![vec![1, 2], vec![2, 1]],
        3 => vec![
            vec![1, 2, 3],
            vec![1, 3, 2],
            vec![2, 1, 3],
            vec![2, 3, 1],
            vec![3, 1, 2],
            vec![3, 2, 1],
        ],
        _ => panic!("only small bell counts are set up here"),
    };
    rows.into_iter().map(PermutationNode::new).collect()
}

fn get_valid_permutation<'a>(
    nodes: &'a [PermutationNode],
    valid_permutations: &[usize],
    index: usize,
) -> &'a PermutationNode {
    &nodes[valid_permutations[index]]
}

#[test]
fn can_get_permutation() {
    let node = PermutationNode::new(vec![1, 2, 3]);
    assert_eq!(vec![1, 2, 3], *node.get_permutation());
}

#[test]
fn initialises_rounds_node_with_flag() {
    let node = PermutationNode::new(vec![1, 2, 3]);

    assert!(node.is_rounds());
}

#[test]
fn initialises_non_rounds_node_with_flag() {
    let permutation = vec![1, 3, 2];
    assert_ne!(permutation, vec![1, 2, 3]);

    let node = PermutationNode::new(permutation);
    assert!(!node.is_rounds());
}

#[test]
fn can_set_and_get_valid_permutations() {
    let mut nodes = set_up_node_vector(2);
    PermutationGraph::build_node_graph(&mut nodes);

    let valid_perms = nodes[0].get_valid_permutations().clone();
    let first_first_valid = get_valid_permutation(&nodes, &valid_perms, 0);

    assert_eq!(nodes[0].get_valid_permutations().len(), 1);
    assert_eq!(first_first_valid.get_permutation(), &vec![2, 1]);
    assert!(nodes[1].get_valid_permutations().is_empty());
}

#[test]
fn can_set_and_get_valid_permutations_length_three() {
    let mut nodes = set_up_node_vector(3);
    PermutationGraph::build_node_graph(&mut nodes);

    assert_eq!(nodes.len(), 6);

    let valid_permutations1 = nodes[0].get_valid_permutations().clone();
    let valid_permutations2 = nodes[1].get_valid_permutations().clone();
    let valid_permutations3 = nodes[2].get_valid_permutations().clone();
    let valid_permutations4 = nodes[3].get_valid_permutations().clone();
    let valid_permutations5 = nodes[4].get_valid_permutations().clone();
    let valid_permutations6 = nodes[5].get_valid_permutations().clone();

    assert_eq!(valid_permutations1.len(), 2);
    assert_eq!(
        get_valid_permutation(&nodes, &valid_permutations1, 0).get_permutation(),
        &vec![1, 3, 2]
    );
    assert_eq!(
        get_valid_permutation(&nodes, &valid_permutations1, 1).get_permutation(),
        &vec![2, 1, 3]
    );

    assert_eq!(valid_permutations2.len(), 1);
    assert_eq!(
        get_valid_permutation(&nodes, &valid_permutations2, 0).get_permutation(),
        &vec![3, 1, 2]
    );

    assert_eq!(valid_permutations3.len(), 1);
    assert_eq!(
        get_valid_permutation(&nodes, &valid_permutations3, 0).get_permutation(),
        &vec![2, 3, 1]
    );

    assert_eq!(valid_permutations4.len(), 2);
    assert_eq!(
        get_valid_permutation(&nodes, &valid_permutations4, 0).get_permutation(),
        &vec![2, 1, 3]
    );
    assert_eq!(
        get_valid_permutation(&nodes, &valid_permutations4, 1).get_permutation(),
        &vec![3, 2, 1]
    );

    assert_eq!(valid_permutations5.len(), 2);
    assert_eq!(
        get_valid_permutation(&nodes, &valid_permutations5, 0).get_permutation(),
        &vec![1, 3, 2]
    );
    assert_eq!(
        get_valid_permutation(&nodes, &valid_permutations5, 1).get_permutation(),
        &vec![3, 2, 1]
    );

    assert_eq!(valid_permutations6.len(), 2);
    assert_eq!(
        get_valid_permutation(&nodes, &valid_permutations6, 0).get_permutation(),
        &vec![2, 3, 1]
    );
    assert_eq!(
        get_valid_permutation(&nodes, &valid_permutations6, 1).get_permutation(),
        &vec![3, 1, 2]
    );
}
