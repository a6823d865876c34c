use workspace_labels::{
    get_leaf_content_nodes, get_nodes_of_type, get_numbered_workspaces, get_workspace_nodes,
    InvalidTree, LayoutNode, NodeType, WindowProperties,
};

fn node(node_type: NodeType, id: usize, children: Vec<LayoutNode>) -> LayoutNode {
    LayoutNode { node_type, id, name: None, num: None, window_properties: None, children }
}

fn window(id: usize, class: &str) -> LayoutNode {
    LayoutNode {
        node_type: NodeType::Container,
        id,
        name: None,
        num: None,
        window_properties: Some(WindowProperties { class: Some(class.to_string()) }),
        children: vec![],
    }
}

fn workspace(id: usize, num: Option<i32>, name: &str, children: Vec<LayoutNode>) -> LayoutNode {
    LayoutNode {
        node_type: NodeType::Workspace,
        id,
        name: Some(name.to_string()),
        num,
        window_properties: None,
        children,
    }
}

fn ids(nodes: &[&LayoutNode]) -> Vec<usize> {
    nodes.iter().map(|n| n.id).collect()
}

#[test]
fn nodes_of_type_keeps_matching_children_in_order() {
    let parent = node(
        NodeType::Output,
        1,
        vec![
            node(NodeType::Container, 2, vec![]),
            node(NodeType::DockArea, 3, vec![]),
            node(NodeType::Container, 4, vec![node(NodeType::Container, 5, vec![])]),
            node(NodeType::Workspace, 6, vec![]),
        ],
    );
    assert_eq!(ids(&get_nodes_of_type(&parent, NodeType::Container)), vec![2, 4]);
    assert_eq!(ids(&get_nodes_of_type(&parent, NodeType::Workspace)), vec![6]);
    assert_eq!(ids(&get_nodes_of_type(&parent, NodeType::DockArea)), vec![3]);
    assert!(get_nodes_of_type(&parent, NodeType::Root).is_empty());
}

#[test]
fn nodes_of_type_looks_at_direct_children_only() {
    let parent = node(
        NodeType::Root,
        1,
        vec![node(NodeType::Output, 2, vec![node(NodeType::Workspace, 3, vec![])])],
    );
    assert!(get_nodes_of_type(&parent, NodeType::Workspace).is_empty());
}

#[test]
fn leaf_content_nodes_of_childless_node_is_empty() {
    let lone = node(NodeType::Container, 1, vec![]);
    assert!(get_leaf_content_nodes(&lone).is_empty());
    let empty_workspace = workspace(2, Some(1), "1", vec![]);
    assert!(get_leaf_content_nodes(&empty_workspace).is_empty());
}

#[test]
fn leaf_content_nodes_come_depth_first_in_document_order() {
    let tree = workspace(
        1,
        Some(1),
        "1",
        vec![
            window(2, "a"),
            node(
                NodeType::Container,
                3,
                vec![
                    window(4, "b"),
                    node(NodeType::Container, 5, vec![window(6, "c"), window(7, "d")]),
                    window(8, "e"),
                ],
            ),
            window(9, "f"),
        ],
    );
    assert_eq!(ids(&get_leaf_content_nodes(&tree)), vec![2, 4, 6, 7, 8, 9]);
}

#[test]
fn leaf_content_nodes_are_containers_without_children() {
    let tree = workspace(
        1,
        Some(1),
        "1",
        vec![
            node(NodeType::DockArea, 2, vec![]),
            node(NodeType::FloatingContainer, 3, vec![]),
            window(4, "a"),
            node(NodeType::Workspace, 5, vec![]),
        ],
    );
    assert_eq!(ids(&get_leaf_content_nodes(&tree)), vec![4]);
}

#[test]
fn leaf_content_nodes_below_other_nodes_are_found() {
    let tree = node(
        NodeType::Root,
        1,
        vec![node(
            NodeType::Output,
            2,
            vec![node(NodeType::Container, 3, vec![workspace(4, Some(1), "1", vec![window(5, "a")])])],
        )],
    );
    assert_eq!(ids(&get_leaf_content_nodes(&tree)), vec![5]);
}

#[test]
fn leaf_content_node_need_not_be_a_window() {
    let tree = workspace(1, Some(1), "1", vec![node(NodeType::Container, 2, vec![])]);
    assert_eq!(ids(&get_leaf_content_nodes(&tree)), vec![2]);
}

#[test]
fn workspace_nodes_on_non_root_fails_with_invalid_tree() {
    for node_type in [
        NodeType::Output,
        NodeType::Container,
        NodeType::FloatingContainer,
        NodeType::Workspace,
        NodeType::DockArea,
    ] {
        let tree = node(
            node_type,
            1,
            vec![node(
                NodeType::Output,
                2,
                vec![node(NodeType::Container, 3, vec![workspace(4, Some(1), "1", vec![])])],
            )],
        );
        assert_eq!(get_workspace_nodes(&tree).err(), Some(InvalidTree::RootExpected));
        assert_eq!(get_numbered_workspaces(&tree).err(), Some(InvalidTree::RootExpected));
    }
}

#[test]
fn workspace_nodes_follow_outputs_and_containers_in_order() {
    let tree = node(
        NodeType::Root,
        1,
        vec![
            node(
                NodeType::Output,
                10,
                vec![
                    node(NodeType::DockArea, 11, vec![workspace(12, Some(9), "9", vec![])]),
                    node(
                        NodeType::Container,
                        13,
                        vec![workspace(14, Some(3), "3", vec![]), workspace(15, Some(1), "1", vec![])],
                    ),
                    node(NodeType::Container, 16, vec![workspace(17, Some(2), "2", vec![])]),
                ],
            ),
            node(NodeType::Container, 20, vec![workspace(21, Some(8), "8", vec![])]),
            node(
                NodeType::Output,
                30,
                vec![
                    workspace(31, Some(7), "7", vec![]),
                    node(
                        NodeType::Container,
                        32,
                        vec![
                            node(NodeType::Container, 33, vec![workspace(34, Some(6), "6", vec![])]),
                            workspace(35, Some(4), "4", vec![]),
                        ],
                    ),
                ],
            ),
        ],
    );
    let found = get_workspace_nodes(&tree).unwrap();
    assert_eq!(ids(&found), vec![14, 15, 17, 35]);
}

#[test]
fn workspace_nodes_of_bare_root_is_empty() {
    let tree = node(NodeType::Root, 1, vec![]);
    assert!(get_workspace_nodes(&tree).unwrap().is_empty());
    assert!(get_numbered_workspaces(&tree).unwrap().is_empty());
}

#[test]
fn numbered_workspaces_ascend_by_number_and_stay_stable() {
    let tree = node(
        NodeType::Root,
        1,
        vec![
            node(
                NodeType::Output,
                10,
                vec![node(
                    NodeType::Container,
                    11,
                    vec![
                        workspace(12, Some(5), "5", vec![]),
                        workspace(13, Some(2), "2", vec![]),
                        workspace(14, Some(0), "zero", vec![]),
                        workspace(15, None, "none", vec![]),
                        workspace(16, Some(5), "5 again", vec![]),
                    ],
                )],
            ),
            node(
                NodeType::Output,
                20,
                vec![node(
                    NodeType::Container,
                    21,
                    vec![
                        workspace(22, Some(-1), "minus", vec![]),
                        workspace(23, Some(1), "1", vec![]),
                        workspace(24, Some(2), "2 again", vec![]),
                        workspace(25, Some(i32::MAX), "last", vec![]),
                        workspace(26, Some(3), "3", vec![]),
                    ],
                )],
            ),
        ],
    );
    let found = get_numbered_workspaces(&tree).unwrap();
    assert_eq!(ids(&found), vec![23, 13, 24, 26, 12, 16, 25]);
}
