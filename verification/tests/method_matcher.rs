use rusty_bells::permutation_graph::method_iterator::method_matcher::MethodMatcher;

#[test]
fn can_create_a_method_matcher() {
    let half_methods: Vec<Vec<usize>> = vec![vec![0]];
    let current_index: usize = 0;

    let matcher = MethodMatcher::new(&half_methods, current_index);

    assert_eq!(matcher.half_methods, &half_methods);
    assert_eq!(matcher.current_method, &half_methods[current_index]);
    assert_eq!(
        matcher.current_end_node,
        *half_methods[current_index].last().unwrap()
    );
}

#[test]
fn can_get_full_method_from_end_node_match() {
    let half_method = vec![0, 1];
    let half_methods: Vec<Vec<usize>> = vec![half_method];
    let current_index: usize = 0;

    let matcher = MethodMatcher::new(&half_methods, current_index);

    let expected_full_method = vec![0, 1, 0];

    assert_eq!(
        matcher
            .get_full_method_from_end_node_match(current_index)
            .unwrap(),
        expected_full_method
    );
}

#[test]
fn returns_none_match_if_ends_do_not_match() {
    let half_method1 = vec![0, 1];
    let half_method2 = vec![1, 0];
    let half_methods: Vec<Vec<usize>> = vec![half_method1, half_method2];
    let current_index: usize = 0;

    let matcher = MethodMatcher::new(&half_methods, current_index);

    assert_eq!(matcher.get_full_method_from_end_node_match(1), None);
}
