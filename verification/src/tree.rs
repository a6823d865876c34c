//! The layout tree of a snapshot and the walks over it.

use vstd::prelude::*;

verus! {

/// The tag of a node in the layout tree.
#[derive(Clone, Copy, Debug, PartialEq, Eq, Structural)]
pub enum NodeType {
    Root,
    Output,
    Container,
    FloatingContainer,
    Workspace,
    DockArea,
}

/// What the window manager reports of the application window behind a node.
#[derive(Debug, PartialEq, Eq)]
pub struct WindowProperties {
    /// The class of the application that owns the window.
    pub class: Option<String>,
}

/// One node of the layout tree. A snapshot is the node of type `Root` with
/// everything below it; the library reads a snapshot and never changes it.
#[derive(Debug, PartialEq, Eq)]
pub struct LayoutNode {
    pub node_type: NodeType,
    /// Identity of the node within its snapshot.
    pub id: usize,
    /// Display name; for a workspace, the name it has at the time of the
    /// snapshot.
    pub name: Option<String>,
    /// Ordinal of a workspace. A workspace counts as numbered when this is
    /// at least one.
    pub num: Option<i32>,
    /// Present on nodes that stand for an application window.
    pub window_properties: Option<WindowProperties>,
    /// The nodes directly below this one, in the order of the snapshot.
    pub children: Vec<LayoutNode>,
}

/// Why a tree cannot be planned on.
#[derive(Clone, Copy, Debug, PartialEq, Eq, Structural)]
pub enum InvalidTree {
    /// The walk was started on a node that is not of type `Root`.
    RootExpected,
    /// A numbered workspace has no name by which a rename could address it.
    WorkspaceUnnamed,
}

/// The nodes that a sequence of references points to.
pub open spec fn targets(refs: Seq<&LayoutNode>) -> Seq<LayoutNode> {
    refs.map_values(|r: &LayoutNode| *r)
}

/// The direct children of `node` that carry the tag `node_type`, in the order
/// of the snapshot.
pub open spec fn children_of_type(node: LayoutNode, node_type: NodeType) -> Seq<LayoutNode> {
    node.children@.filter(|c: LayoutNode| c.node_type == node_type)
}

/// Collects the direct children of `node` that carry the tag `node_type`.
pub fn get_nodes_of_type(node: &LayoutNode, node_type: NodeType) -> (found: Vec<&LayoutNode>)
    ensures
        targets(found@) == children_of_type(*node, node_type),
{
    let mut found: Vec<&LayoutNode> = Vec::new();
    let mut i: usize = 0;
    let ghost wanted = |c: LayoutNode| c.node_type == node_type;
    while i < node.children.len()
        invariant
            i <= node.children.len(),
            wanted == |c: LayoutNode| c.node_type == node_type,
            targets(found@) == node.children@.take(i as int).filter(wanted),
        decreases node.children.len() - i,
    {
        let child = &node.children[i];
        proof {
            node.children@.lemma_take_succ_push(i as int);
            node.children@.take(i as int).lemma_filter_push(*child, wanted);
        }
        if child.node_type == node_type {
            let ghost before = found@;
            found.push(child);
            assert(targets(found@) == targets(before).push(*child));
        }
        i += 1;
    }
    assert(node.children@.take(i as int) == node.children@);
    found
}

/// Whether `node` is a leaf content node: a container with nothing below it.
/// That is the unit that stands for one window on the screen.
pub open spec fn is_leaf_content(node: LayoutNode) -> bool {
    node.node_type == NodeType::Container && node.children@.len() == 0
}

/// Every node strictly below `node`, in document order: a node comes before
/// what is below it, and children come in the order of the snapshot.
pub open spec fn descendants(node: LayoutNode) -> Seq<LayoutNode> {
    descendants_from(node, 0)
}

/// The part of `descendants(node)` that lies at or below the children of
/// `node` from position `from` on.
pub open spec fn descendants_from(node: LayoutNode, from: nat) -> Seq<LayoutNode>
    decreases node, node.children@.len() - from,
{
    if from >= node.children@.len() {
        Seq::empty()
    } else {
        let child = node.children@[from as int];
        seq![child] + descendants_from(child, 0) + descendants_from(node, from + 1)
    }
}

/// The leaf content nodes below `node`, in document order.
pub open spec fn leaf_content_nodes(node: LayoutNode) -> Seq<LayoutNode> {
    descendants(node).filter(|n: LayoutNode| is_leaf_content(n))
}

/// Collects every leaf content node below `node`, depth first, children in
/// the order of the snapshot. A node without children yields nothing.
pub fn get_leaf_content_nodes(node: &LayoutNode) -> (leaves: Vec<&LayoutNode>)
    ensures
        targets(leaves@) == leaf_content_nodes(*node),
    decreases node,
{
    let mut leaves: Vec<&LayoutNode> = Vec::new();
    let mut i: usize = 0;
    let ghost leaf = |n: LayoutNode| is_leaf_content(n);
    while i < node.children.len()
        invariant
            i <= node.children.len(),
            leaf == |n: LayoutNode| is_leaf_content(n),
            targets(leaves@) + descendants_from(*node, i as nat).filter(leaf)
                == leaf_content_nodes(*node),
        decreases node.children.len() - i,
    {
        let child = &node.children[i];
        let ghost before = leaves@;
        let ghost rest = descendants_from(*node, (i + 1) as nat);
        proof {
            let below = descendants_from(*child, 0);
            assert(descendants_from(*node, i as nat) == seq![*child] + below + rest);
            Seq::filter_distributes_over_add(seq![*child] + below, rest, leaf);
            Seq::filter_distributes_over_add(seq![*child], below, leaf);
            Seq::<LayoutNode>::empty().lemma_filter_push(*child, leaf);
            assert(seq![*child] == Seq::<LayoutNode>::empty().push(*child));
            reveal(Seq::filter);
            assert(Seq::<LayoutNode>::empty().filter(leaf) == Seq::<LayoutNode>::empty());
        }
        if child.node_type == NodeType::Container && child.children.len() == 0 {
            leaves.push(child);
            proof {
                assert(descendants_from(*child, 0) == Seq::<LayoutNode>::empty());
                assert(targets(leaves@) == targets(before).push(*child));
                assert(targets(leaves@) + rest.filter(leaf) == targets(before) + (seq![*child]
                    + rest.filter(leaf)));
            }
        } else {
            let mut below = get_leaf_content_nodes(child);
            let ghost found = below@;
            leaves.append(&mut below);
            proof {
                assert(targets(leaves@) == targets(before) + targets(found));
                assert(targets(leaves@) + rest.filter(leaf) == targets(before) + (targets(found)
                    + rest.filter(leaf)));
            }
        }
        i += 1;
    }
    leaves
}

/// The workspaces of a snapshot: every node of type `Workspace` that lies
/// directly below a container that lies directly below an output of `root`,
/// in the order in which outputs and containers appear.
pub open spec fn workspace_nodes(root: LayoutNode) -> Seq<LayoutNode> {
    children_of_type(root, NodeType::Output).flat_map(
        |output: LayoutNode| children_of_type(output, NodeType::Container),
    ).flat_map(|container: LayoutNode| children_of_type(container, NodeType::Workspace))
}

/// Collects, parent by parent, the direct children that carry the tag
/// `node_type`.
fn get_nodes_of_type_below<'a>(parents: &Vec<&'a LayoutNode>, node_type: NodeType) -> (found: Vec<
    &'a LayoutNode,
>)
    ensures
        targets(found@) == targets(parents@).flat_map(
            |p: LayoutNode| children_of_type(p, node_type),
        ),
{
    let mut found: Vec<&'a LayoutNode> = Vec::new();
    let mut i: usize = 0;
    let ghost below = |p: LayoutNode| children_of_type(p, node_type);
    while i < parents.len()
        invariant
            i <= parents.len(),
            below == |p: LayoutNode| children_of_type(p, node_type),
            targets(found@) == targets(parents@).take(i as int).flat_map(below),
        decreases parents.len() - i,
    {
        let ghost before = found@;
        let mut children = get_nodes_of_type(parents[i], node_type);
        let ghost added = children@;
        found.append(&mut children);
        proof {
            assert(targets(found@) == targets(before) + targets(added));
            targets(parents@).lemma_flat_map_take_append(below, i as int);
        }
        i += 1;
    }
    assert(targets(parents@).take(i as int) == targets(parents@));
    found
}

/// Collects the workspaces of a snapshot. The walk starts at the root of the
/// tree and nowhere else: on any other node it fails.
pub fn get_workspace_nodes(root: &LayoutNode) -> (result: Result<Vec<&LayoutNode>, InvalidTree>)
    ensures
        match result {
            Ok(workspaces) => root.node_type == NodeType::Root && targets(workspaces@)
                == workspace_nodes(*root),
            Err(fault) => root.node_type != NodeType::Root && fault == InvalidTree::RootExpected,
        },
{
    if root.node_type != NodeType::Root {
        return Err(InvalidTree::RootExpected);
    }
    let outputs = get_nodes_of_type(root, NodeType::Output);
    let containers = get_nodes_of_type_below(&outputs, NodeType::Container);
    let workspaces = get_nodes_of_type_below(&containers, NodeType::Workspace);
    Ok(workspaces)
}

} // verus!
