use rusty_bells::permutation_graph::method_iterator::MethodIterator;
use rusty_bells::PermutationGraph;

fn collect_full_methods(mut method_iterator: MethodIterator) -> Vec<Vec<usize>> {
    let mut valid_methods = Vec::new();
    while let Some(method) = method_iterator.next() {
        valid_methods.push(method);
    }

    valid_methods
}

fn method_rows(graph: &PermutationGraph, method: &[usize]) -> Vec<Vec<u8>> {
    method
        .iter()
        .map(|&node| graph.nodes[node].get_permutation().clone())
        .collect()
}

#[test]
fn handles_no_bells() {
    let graph = PermutationGraph::new(0);
    assert!(graph.nodes.is_empty());
}

#[test]
fn handles_one_bell() {
    let graph = PermutationGraph::new(1);
    assert_eq!(graph.nodes.len(), 1);
}

#[test]
fn handles_many_bells() {
    let graph1 = PermutationGraph::new(5);
    let graph2 = PermutationGraph::new(6);

    assert_eq!(graph1.nodes.len(), 120);
    assert_eq!(graph2.nodes.len(), 720);
}

#[test]
fn permutation_nodes_have_all_valid_changes() {
    let graph = PermutationGraph::new(2);

    let valid_permutations1 = graph.nodes[0].get_valid_permutations();

    assert_eq!(valid_permutations1.len(), 1);
    assert_eq!(
        graph.nodes[valid_permutations1[0]].get_permutation(),
        &vec![2, 1]
    );
    assert!(graph.nodes[valid_permutations1[0]]
        .get_valid_permutations()
        .is_empty());
}

#[test]
fn can_get_all_half_methods_without_repeats() {
    let graph = PermutationGraph::new(3);

    let half_methods = graph.get_valid_half_methods();

    assert_eq!(half_methods.len(), 2);

    let expected_method1: Vec<Vec<u8>> =
        vec![vec![1, 2, 3], vec![1, 3, 2], vec![3, 1, 2], vec![3, 2, 1]];
    let expected_method2: Vec<Vec<u8>> =
        vec![vec![1, 2, 3], vec![2, 1, 3], vec![2, 3, 1], vec![3, 2, 1]];

    assert!(half_methods
        .iter()
        .any(|method| method_rows(&graph, method) == expected_method1));
    assert!(half_methods
        .iter()
        .any(|method| method_rows(&graph, method) == expected_method2));
}

#[test]
fn can_get_all_valid_methods() {
    let graph = PermutationGraph::new(3);
    let method_iterator = graph
        .get_valid_full_methods()
        .expect("There should be an iterator");
    let method1: Vec<Vec<u8>> = vec![
        vec![1, 2, 3],
        vec![1, 3, 2],
        vec![3, 1, 2],
        vec![3, 2, 1],
        vec![2, 3, 1],
        vec![2, 1, 3],
        vec![1, 2, 3],
    ];
    let method2: Vec<Vec<u8>> = method1.iter().rev().cloned().collect();
    let valid_methods = collect_full_methods(method_iterator);

    assert_eq!(valid_methods.len(), 2);

    let valid_method1 = &valid_methods[0];
    let valid_method2 = &valid_methods[1];

    assert_eq!(valid_method1.len(), method1.len());
    assert_eq!(valid_method1.len(), valid_method2.len());

    assert!(valid_methods
        .iter()
        .any(|method| method_rows(&graph, method) == method1));
    assert!(valid_methods
        .iter()
        .any(|method| method_rows(&graph, method) == method2));
}

#[test]
fn can_handle_getting_two_bell_methods() {
    let graph = PermutationGraph::new(2);
    let method_iterator = graph
        .get_valid_full_methods()
        .expect("There should be an iterator");

    let valid_methods = collect_full_methods(method_iterator);
    assert_eq!(valid_methods.len(), 1);

    let permutations = method_rows(&graph, &valid_methods[0]);

    assert_eq!(permutations, vec![vec![1, 2], vec![2, 1], vec![1, 2]]);
}

#[test]
fn can_handle_getting_one_bell_method() {
    let graph = PermutationGraph::new(1);
    let method_iterator = graph
        .get_valid_full_methods()
        .expect("There should be an iterator");
    let valid_methods = collect_full_methods(method_iterator);

    assert_eq!(valid_methods.len(), 1);

    let permutations = method_rows(&graph, &valid_methods[0]);

    assert_eq!(permutations, vec![vec![1]]);
}

#[test]
fn can_handle_getting_zero_bells() {
    let graph = PermutationGraph::new(0);
    let method_iterator = graph
        .get_valid_full_methods()
        .expect("There should be an iterator");
    let valid_methods = collect_full_methods(method_iterator);

    assert_eq!(valid_methods.len(), 1);

    let permutations = method_rows(&graph, &valid_methods[0]);

    assert_eq!(permutations, Vec::<Vec<u8>>::new());
}

#[test]
fn can_get_a_node_half_method_job() {
    let graph = PermutationGraph::new(3);
    let valid_changes = graph.nodes[0].get_valid_permutations().clone();
    let valid_change1 = valid_changes[0];
    let valid_change2 = valid_changes[1];

    let half_methods1 = graph.get_node_half_methods(valid_change1, 0);
    let half_methods2 = graph.get_node_half_methods(valid_change2, 0);

    assert_eq!(half_methods1.len(), 1);
    assert_eq!(half_methods2.len(), 1);

    let first_half = &half_methods1[0];
    let second_half = &half_methods2[0];

    assert_eq!(first_half.len(), 4);
    assert_eq!(second_half.len(), 4);

    assert_eq!(graph.nodes[first_half[0]].get_permutation(), &vec![1, 2, 3]);
    assert_eq!(graph.nodes[first_half[1]].get_permutation(), &vec![1, 3, 2]);
    assert_eq!(graph.nodes[first_half[2]].get_permutation(), &vec![3, 1, 2]);
    assert_eq!(graph.nodes[first_half[3]].get_permutation(), &vec![3, 2, 1]);

    assert_eq!(graph.nodes[second_half[0]].get_permutation(), &vec![1, 2, 3]);
    assert_eq!(graph.nodes[second_half[1]].get_permutation(), &vec![2, 1, 3]);
    assert_eq!(graph.nodes[second_half[2]].get_permutation(), &vec![2, 3, 1]);
    assert_eq!(graph.nodes[second_half[3]].get_permutation(), &vec![3, 2, 1]);
}

#[test]
fn running_twice_yields_the_same_methods() {
    let first_run: Vec<Vec<Vec<u8>>> = {
        let graph = PermutationGraph::new(3);
        let iterator = graph
            .get_valid_full_methods()
            .expect("There should be an iterator");
        collect_full_methods(iterator)
            .iter()
            .map(|m| method_rows(&graph, m))
            .collect()
    };
    let second_run: Vec<Vec<Vec<u8>>> = {
        let graph = PermutationGraph::new(3);
        let iterator = graph
            .get_valid_full_methods()
            .expect("There should be an iterator");
        collect_full_methods(iterator)
            .iter()
            .map(|m| method_rows(&graph, m))
            .collect()
    };

    assert_eq!(first_run, second_run);
}
