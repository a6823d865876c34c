use workspace_labels::{
    get_workspace_name, get_workspace_rename_commands, plan_renames, rename_command, InvalidTree,
    LayoutNode, Lookup, NodeType, RenameDirective, WindowProperties,
};

fn plain(node_type: NodeType, id: usize, children: Vec<LayoutNode>) -> LayoutNode {
    LayoutNode { node_type, id, name: None, num: None, window_properties: None, children }
}

fn app(id: usize, class: &str) -> LayoutNode {
    LayoutNode {
        node_type: NodeType::Container,
        id,
        name: Some(format!("window {}", id)),
        num: None,
        window_properties: Some(WindowProperties { class: Some(class.to_string()) }),
        children: vec![],
    }
}

fn split(id: usize, children: Vec<LayoutNode>) -> LayoutNode {
    plain(NodeType::Container, id, children)
}

fn desk(id: usize, num: Option<i32>, name: Option<&str>, children: Vec<LayoutNode>) -> LayoutNode {
    LayoutNode {
        node_type: NodeType::Workspace,
        id,
        name: name.map(|n| n.to_string()),
        num,
        window_properties: None,
        children,
    }
}

fn snapshot(workspaces: Vec<LayoutNode>) -> LayoutNode {
    plain(
        NodeType::Root,
        1,
        vec![plain(NodeType::Output, 2, vec![plain(NodeType::Container, 3, workspaces)])],
    )
}

fn table(entries: &[(&str, &str)]) -> Lookup {
    let mut lookup = Lookup::new();
    for (class, label) in entries {
        lookup.insert(class.to_string(), label.to_string());
    }
    lookup
}

fn pairs(plan: &[RenameDirective]) -> Vec<(String, String)> {
    plan.iter().map(|d| (d.old_name.clone(), d.new_name.clone())).collect()
}

fn pair(old: &str, new: &str) -> (String, String) {
    (old.to_string(), new.to_string())
}

#[test]
fn label_is_empty_without_windows() {
    let workspace = desk(10, Some(1), Some("1"), vec![]);
    assert_eq!(get_workspace_name(&workspace, &Lookup::standard()), "");
}

#[test]
fn label_is_empty_when_no_window_matches() {
    let workspace = desk(
        10,
        Some(4),
        Some("4"),
        vec![app(11, "Emacs"), split(12, vec![app(13, "firefox"), app(14, "Code ")])],
    );
    let lookup = Lookup::standard();
    assert_eq!(get_workspace_name(&workspace, &lookup), "");
    let plan = plan_renames(&snapshot(vec![desk(10, Some(4), Some("four"), vec![app(11, "Emacs")])]), &lookup)
        .unwrap();
    assert_eq!(pairs(&plan), vec![pair("four", "4")]);
}

#[test]
fn label_skips_windows_without_class_or_properties() {
    let mut classless = app(11, "Firefox");
    classless.window_properties = Some(WindowProperties { class: None });
    let mut bare = app(12, "Firefox");
    bare.window_properties = None;
    let workspace = desk(10, Some(1), Some("1"), vec![classless, bare, app(13, "Code")]);
    assert_eq!(get_workspace_name(&workspace, &Lookup::standard()), "C");
}

#[test]
fn label_holds_a_shared_label_once() {
    let workspace = desk(10, Some(1), Some("1"), vec![app(11, "Firefox"), app(12, "Firefox")]);
    assert_eq!(get_workspace_name(&workspace, &Lookup::standard()), "F");
}

#[test]
fn label_holds_each_label_once_across_classes() {
    let lookup = table(&[("Firefox", "web"), ("Chromium", "web"), ("Code", "C")]);
    let workspace = desk(
        10,
        Some(1),
        Some("1"),
        vec![
            app(11, "Firefox"),
            app(12, "Code"),
            split(13, vec![app(14, "Chromium"), app(15, "Code"), app(16, "Firefox")]),
        ],
    );
    assert_eq!(get_workspace_name(&workspace, &lookup), "web C");
}

#[test]
fn labels_stand_in_order_of_first_window() {
    let lookup = Lookup::standard();
    let first = desk(10, Some(3), Some("3"), vec![app(11, "Firefox"), app(12, "Code")]);
    let second = desk(20, Some(3), Some("3"), vec![app(21, "Code"), app(22, "Firefox")]);
    assert_eq!(get_workspace_name(&first, &lookup), "F C");
    assert_eq!(get_workspace_name(&second, &lookup), "C F");
    let plan = plan_renames(&snapshot(vec![first]), &lookup).unwrap();
    assert_eq!(pairs(&plan), vec![pair("3", "3: F C")]);
    let plan = plan_renames(&snapshot(vec![second]), &lookup).unwrap();
    assert_eq!(pairs(&plan), vec![pair("3", "3: C F")]);
}

#[test]
fn labels_of_nested_windows_are_found() {
    let workspace = desk(
        10,
        Some(1),
        Some("1"),
        vec![split(
            11,
            vec![
                split(12, vec![app(13, "Joplin")]),
                app(14, "Alacritty"),
                split(15, vec![split(16, vec![app(17, "Joplin"), app(18, "Firefox")])]),
            ],
        )],
    );
    assert_eq!(get_workspace_name(&workspace, &Lookup::standard()), "J A F");
}

#[test]
fn label_may_hold_an_empty_label() {
    let lookup = table(&[("Firefox", ""), ("Code", "C")]);
    let only_empty = desk(10, Some(2), Some("two"), vec![app(11, "Firefox")]);
    assert_eq!(get_workspace_name(&only_empty, &lookup), "");
    let both = desk(10, Some(2), Some("two"), vec![app(11, "Firefox"), app(12, "Code")]);
    assert_eq!(get_workspace_name(&both, &lookup), " C");
    let plan = plan_renames(&snapshot(vec![only_empty, both]), &lookup).unwrap();
    assert_eq!(pairs(&plan), vec![pair("two", "2"), pair("two", "2:  C")]);
}

#[test]
fn plan_for_one_firefox_window() {
    let tree = snapshot(vec![desk(10, Some(2), Some("2"), vec![app(11, "Firefox")])]);
    let lookup = table(&[("Firefox", "F")]);
    let plan = plan_renames(&tree, &lookup).unwrap();
    assert_eq!(
        plan,
        vec![RenameDirective { old_name: "2".to_string(), new_name: "2: F".to_string() }]
    );
}

#[test]
fn plan_is_empty_without_numbered_workspaces() {
    let lookup = Lookup::standard();
    assert!(plan_renames(&snapshot(vec![]), &lookup).unwrap().is_empty());
    assert!(plan_renames(&plain(NodeType::Root, 1, vec![]), &lookup).unwrap().is_empty());
    let tree = snapshot(vec![
        desk(10, Some(0), Some("scratch"), vec![app(11, "Firefox")]),
        desk(20, None, Some("loose"), vec![app(21, "Code")]),
        desk(30, Some(-1), Some("__i3_scratch"), vec![app(31, "Alacritty")]),
    ]);
    assert!(plan_renames(&tree, &lookup).unwrap().is_empty());
    assert!(get_workspace_rename_commands(&tree, &lookup).unwrap().is_empty());
}

#[test]
fn plan_never_holds_workspace_zero() {
    let lookup = Lookup::standard();
    let tree = snapshot(vec![
        desk(10, Some(0), Some("0"), vec![app(11, "Firefox")]),
        desk(20, Some(1), Some("1"), vec![app(21, "Code")]),
        desk(30, Some(0), Some("other"), vec![]),
    ]);
    let plan = plan_renames(&tree, &lookup).unwrap();
    assert_eq!(pairs(&plan), vec![pair("1", "1: C")]);
}

#[test]
fn plan_unnamed_workspace_without_number_is_left_alone() {
    let lookup = Lookup::standard();
    let tree = snapshot(vec![
        desk(10, Some(0), None, vec![app(11, "Firefox")]),
        desk(20, None, None, vec![]),
        desk(30, Some(5), Some("5"), vec![app(31, "Joplin")]),
    ]);
    let plan = plan_renames(&tree, &lookup).unwrap();
    assert_eq!(pairs(&plan), vec![pair("5", "5: J")]);
}

#[test]
fn plan_is_the_same_when_planned_twice() {
    let lookup = Lookup::standard();
    let tree = snapshot(vec![
        desk(10, Some(2), Some("2: F"), vec![app(11, "Code"), app(12, "Firefox"), app(13, "Code")]),
        desk(20, Some(1), Some("1"), vec![app(21, "Alacritty"), app(22, "Joplin")]),
        desk(30, Some(3), Some("old"), vec![]),
    ]);
    let first = plan_renames(&tree, &lookup).unwrap();
    let second = plan_renames(&tree, &lookup).unwrap();
    assert_eq!(first, second);
    assert_eq!(
        pairs(&first),
        vec![pair("1", "1: A J"), pair("2: F", "2: C F"), pair("old", "3")]
    );
}

#[test]
fn plan_on_non_root_fails_with_invalid_tree() {
    let lookup = Lookup::standard();
    let output = plain(
        NodeType::Output,
        2,
        vec![plain(NodeType::Container, 3, vec![desk(10, Some(1), Some("1"), vec![app(11, "Code")])])],
    );
    assert_eq!(plan_renames(&output, &lookup), Err(InvalidTree::RootExpected));
    assert_eq!(get_workspace_rename_commands(&output, &lookup), Err(InvalidTree::RootExpected));
    let workspace = desk(10, Some(1), Some("1"), vec![app(11, "Code")]);
    assert_eq!(plan_renames(&workspace, &lookup), Err(InvalidTree::RootExpected));
}

#[test]
fn plan_fails_on_numbered_workspace_without_name() {
    let lookup = Lookup::standard();
    let tree = snapshot(vec![
        desk(10, Some(1), Some("1"), vec![app(11, "Code")]),
        desk(20, Some(2), None, vec![app(21, "Firefox")]),
    ]);
    assert_eq!(plan_renames(&tree, &lookup), Err(InvalidTree::WorkspaceUnnamed));
    assert_eq!(get_workspace_rename_commands(&tree, &lookup), Err(InvalidTree::WorkspaceUnnamed));
}

#[test]
fn plan_skips_unlabelled_workspace_that_has_its_name() {
    let lookup = Lookup::standard();
    let tree = snapshot(vec![
        desk(10, Some(1), Some("1"), vec![]),
        desk(20, Some(2), Some("2"), vec![app(21, "Emacs")]),
        desk(30, Some(3), Some("3 "), vec![]),
        desk(40, Some(4), Some("4: F"), vec![]),
    ]);
    let plan = plan_renames(&tree, &lookup).unwrap();
    assert_eq!(pairs(&plan), vec![pair("3 ", "3"), pair("4: F", "4")]);
}

#[test]
fn plan_keeps_labelled_workspace_that_has_its_name() {
    let lookup = Lookup::standard();
    let tree = snapshot(vec![desk(10, Some(7), Some("7: F"), vec![app(11, "Firefox")])]);
    let plan = plan_renames(&tree, &lookup).unwrap();
    assert_eq!(pairs(&plan), vec![pair("7: F", "7: F")]);
}

#[test]
fn plan_ascends_by_workspace_number() {
    let lookup = Lookup::standard();
    let tree = plain(
        NodeType::Root,
        1,
        vec![
            plain(
                NodeType::Output,
                2,
                vec![plain(
                    NodeType::Container,
                    3,
                    vec![
                        desk(10, Some(10), Some("ten"), vec![app(11, "Code")]),
                        desk(20, Some(2), Some("two"), vec![]),
                    ],
                )],
            ),
            plain(
                NodeType::Output,
                4,
                vec![plain(
                    NodeType::Container,
                    5,
                    vec![
                        desk(30, Some(1), Some("one"), vec![app(31, "Firefox")]),
                        desk(40, Some(2), Some("zwei"), vec![app(41, "Joplin")]),
                    ],
                )],
            ),
        ],
    );
    let plan = plan_renames(&tree, &lookup).unwrap();
    assert_eq!(
        pairs(&plan),
        vec![pair("one", "1: F"), pair("two", "2"), pair("zwei", "2: J"), pair("ten", "10: C")]
    );
}

#[test]
fn rename_command_quotes_both_names() {
    let directive = RenameDirective { old_name: "2".to_string(), new_name: "2: F".to_string() };
    assert_eq!(rename_command(&directive), "rename workspace \"2\" to \"2: F\"");
    let blank = RenameDirective { old_name: String::new(), new_name: String::new() };
    assert_eq!(rename_command(&blank), "rename workspace \"\" to \"\"");
}

#[test]
fn rename_commands_follow_the_plan() {
    let lookup = Lookup::standard();
    let tree = snapshot(vec![
        desk(10, Some(3), Some("3"), vec![app(11, "Alacritty"), app(12, "Code")]),
        desk(20, Some(1), Some("1: J"), vec![]),
    ]);
    let commands = get_workspace_rename_commands(&tree, &lookup).unwrap();
    assert_eq!(
        commands,
        vec![
            "rename workspace \"1: J\" to \"1\"".to_string(),
            "rename workspace \"3\" to \"3: A C\"".to_string(),
        ]
    );
}

#[test]
fn new_name_for_the_largest_number() {
    let lookup = Lookup::standard();
    let tree = snapshot(vec![desk(10, Some(i32::MAX), Some("far"), vec![app(11, "Code")])]);
    let plan = plan_renames(&tree, &lookup).unwrap();
    assert_eq!(pairs(&plan), vec![pair("far", "2147483647: C")]);
}
