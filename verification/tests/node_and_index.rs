use rusty_bells::permutation_graph::node_stack::node_and_index::NodeAndIndex;
use rusty_bells::permutation_graph::permutation_node::PermutationNode;
use rusty_bells::PermutationGraph;

fn set_up_built_node_vector(n: usize) -> Vec<PermutationNode> {
    let rows: Vec<Vec<u8>> = match n {
        2 => vec![vec![1, 2], vec![2, 1]],
        _ => panic!("only small bell counts are set up here"),
    };
    let mut nodes: Vec<PermutationNode> = rows.into_iter().map(PermutationNode::new).collect();
    PermutationGraph::build_node_graph(&mut nodes);
    nodes
}

#[test]
fn can_create_node_and_index_struct() {
    let node_and_index = NodeAndIndex::new(0);

    assert_eq!(node_and_index.index, 0);
    assert_eq!(node_and_index.node, 0);
}

#[test]
fn can_get_next_node() {
    let nodes = set_up_built_node_vector(2);

    let mut node_and_index = NodeAndIndex::new(0);

    if let None = node_and_index.next(&nodes) {
        panic!("Should have a next node");
    }
}

#[test]
fn next_node_is_none_if_none_left() {
    let nodes = set_up_built_node_vector(2);

    let mut node_and_index = NodeAndIndex::new(0);

    if let None = node_and_index.next(&nodes) {
        panic!("Should have a next node");
    }
    if let Some(_) = node_and_index.next(&nodes) {
        panic!("Should not have a next node");
    }
}

#[test]
fn can_get_node() {
    let node_and_index = NodeAndIndex::new(0);

    assert_eq!(node_and_index.get_node(), 0);
}

#[test]
fn can_check_equality() {
    let node_and_index1 = NodeAndIndex::new(0);
    let node_and_index2 = NodeAndIndex::new(1);

    assert_eq!(&node_and_index1, &node_and_index1);
    assert!(!(&node_and_index1 == &node_and_index2));
}
