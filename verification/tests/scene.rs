use tracer_core::scene::{collect_leaf_paths, component_composes_additively, Node};

#[test]
fn test_lone_object_has_no_ancestors() {
    let paths = collect_leaf_paths(&Node::Leaf(42));
    assert_eq!(paths, vec![(42, vec![])]);
}

#[test]
fn test_intersect_empty_group() {
    // An empty group contributes no hits: no leaves, no paths.
    let paths = collect_leaf_paths(&Node::Group(1, vec![]));
    assert!(paths.is_empty());
}

#[test]
fn test_group_members_in_order() {
    let g = Node::Group(9, vec![Node::Leaf(1), Node::Leaf(2), Node::Leaf(3)]);
    let paths = collect_leaf_paths(&g);
    assert_eq!(paths, vec![(1, vec![9]), (2, vec![9]), (3, vec![9])]);
}

#[test]
fn test_nested_groups_compose_innermost_first() {
    // A sphere inside an inner group inside an outer one: its hits receive
    // the inner group's transform parameters first, then the outer's — the
    // order the scaled-group scenario depends on.
    let tree = Node::Group(
        10,
        vec![
            Node::Leaf(1),
            Node::Group(20, vec![Node::Leaf(2), Node::Leaf(3)]),
            Node::Leaf(4),
        ],
    );
    let paths = collect_leaf_paths(&tree);
    assert_eq!(
        paths,
        vec![
            (1, vec![10]),
            (2, vec![20, 10]),
            (3, vec![20, 10]),
            (4, vec![10]),
        ]
    );
}

#[test]
fn test_scale_components_multiply() {
    // Of the fifteen transform components only the three scales compose by
    // multiplication; everything else sums.
    let additive: Vec<bool> = (0..15).map(component_composes_additively).collect();
    let expected = [
        true, true, true, // translations
        false, false, false, // scales
        true, true, true, // rotations
        true, true, true, true, true, true, // shears
    ];
    assert_eq!(additive, expected);
}
