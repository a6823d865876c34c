//! The label of a workspace: the labels of the applications whose windows it
//! holds, each once.
//!
//! Labels stand in the order in which their first window appears in the
//! snapshot. The same snapshot and the same table therefore always give the
//! same label.

use crate::lookup::Lookup;
use crate::text::{join, join_texts, texts};
use crate::tree::{get_leaf_content_nodes, leaf_content_nodes, targets, LayoutNode};
use vstd::prelude::*;
use vstd::seq_lib::lemma_seq_contains_after_push;

verus! {

/// The class of the application window behind `node`, if it has one.
pub open spec fn window_class(node: LayoutNode) -> Option<Seq<char>> {
    match node.window_properties {
        Some(properties) => match properties.class {
            Some(class) => Some(class@),
            None => None,
        },
        None => None,
    }
}

/// The label that `table` gives to the window behind `node`: none when the
/// node has no class or the table has no entry for it.
pub open spec fn window_label(node: LayoutNode, table: Map<Seq<char>, Seq<char>>) -> Option<
    Seq<char>,
> {
    match window_class(node) {
        Some(class) => if table.contains_key(class) {
            Some(table[class])
        } else {
            None
        },
        None => None,
    }
}

/// The labels of the windows of `workspace`, window by window in document
/// order. Windows without a label are left out; a label stands as often as
/// it has windows.
pub open spec fn window_labels(workspace: LayoutNode, table: Map<Seq<char>, Seq<char>>) -> Seq<
    Seq<char>,
> {
    leaf_content_nodes(workspace).filter_map(|leaf: LayoutNode| window_label(leaf, table))
}

/// The elements of `items`, each kept where it occurs first.
pub open spec fn distinct(items: Seq<Seq<char>>) -> Seq<Seq<char>>
    decreases items.len(),
{
    if items.len() == 0 {
        items
    } else if items.drop_last().contains(items.last()) {
        distinct(items.drop_last())
    } else {
        distinct(items.drop_last()).push(items.last())
    }
}

/// The distinct labels of the windows of `workspace`, in the order of their
/// first window.
pub open spec fn distinct_labels(workspace: LayoutNode, table: Map<Seq<char>, Seq<char>>) -> Seq<
    Seq<char>,
> {
    distinct(window_labels(workspace, table))
}

/// The label of `workspace`: its distinct labels, separated by single
/// spaces. It is empty when no window of the workspace has a label.
pub open spec fn workspace_label(workspace: LayoutNode, table: Map<Seq<char>, Seq<char>>) -> Seq<
    char,
> {
    join(distinct_labels(workspace, table), " "@)
}

/// `distinct` keeps exactly the elements of the sequence.
pub proof fn lemma_distinct_keeps_elements(items: Seq<Seq<char>>)
    ensures
        forall|item: Seq<char>| distinct(items).contains(item) <==> items.contains(item),
    decreases items.len(),
{
    if items.len() > 0 {
        let init = items.drop_last();
        let last = items.last();
        lemma_distinct_keeps_elements(init);
        assert(items == init.push(last));
        assert forall|item: Seq<char>| distinct(items).contains(item) <==> items.contains(
            item,
        ) by {
            lemma_seq_contains_after_push(init, last, item);
            lemma_seq_contains_after_push(distinct(init), last, item);
        }
    }
}

/// Nothing stands twice in `distinct(items)`.
pub proof fn lemma_distinct_has_no_duplicates(items: Seq<Seq<char>>)
    ensures
        distinct(items).no_duplicates(),
    decreases items.len(),
{
    if items.len() > 0 {
        let init = items.drop_last();
        lemma_distinct_has_no_duplicates(init);
        lemma_distinct_keeps_elements(init);
        if !init.contains(items.last()) {
            assert(!distinct(init).contains(items.last()));
        }
    }
}

/// A sequence in which nothing stands twice is left as it is.
pub proof fn lemma_distinct_of_distinct(items: Seq<Seq<char>>)
    requires
        items.no_duplicates(),
    ensures
        distinct(items) == items,
    decreases items.len(),
{
    if items.len() > 0 {
        let init = items.drop_last();
        lemma_distinct_of_distinct(init);
        if init.contains(items.last()) {
            let k = choose|k: int| 0 <= k < init.len() && init[k] == items.last();
            assert(items[k] == items[items.len() - 1]);
        }
        assert(init.push(items.last()) == items);
    }
}

/// Removing what stands twice a second time changes nothing.
pub proof fn lemma_distinct_is_idempotent(items: Seq<Seq<char>>)
    ensures
        distinct(distinct(items)) == distinct(items),
{
    lemma_distinct_has_no_duplicates(items);
    lemma_distinct_of_distinct(distinct(items));
}

/// Where no window has a label, there are no labels.
pub proof fn lemma_no_label_no_labels(leaves: Seq<LayoutNode>, table: Map<Seq<char>, Seq<char>>)
    requires
        forall|i: int| 0 <= i < leaves.len() ==> window_label(#[trigger] leaves[i], table) is None,
    ensures
        leaves.filter_map(|leaf: LayoutNode| window_label(leaf, table)) == Seq::<
            Seq<char>,
        >::empty(),
    decreases leaves.len(),
{
    if leaves.len() > 0 {
        let init = leaves.drop_last();
        assert forall|i: int| 0 <= i < init.len() implies window_label(
            #[trigger] init[i],
            table,
        ) is None by {
            assert(init[i] == leaves[i]);
        }
        lemma_no_label_no_labels(init, table);
        assert(window_label(leaves[leaves.len() - 1], table) is None);
    }
}

/// No label stands twice in the distinct labels of a workspace, and a label
/// that one or more of its windows have stands there exactly once.
pub proof fn lemma_shared_label_stands_once(
    workspace: LayoutNode,
    table: Map<Seq<char>, Seq<char>>,
    label: Seq<char>,
)
    requires
        window_labels(workspace, table).contains(label),
    ensures
        distinct_labels(workspace, table).no_duplicates(),
        distinct_labels(workspace, table).to_multiset().count(label) == 1,
{
    let labels = distinct_labels(workspace, table);
    lemma_distinct_has_no_duplicates(window_labels(workspace, table));
    lemma_distinct_keeps_elements(window_labels(workspace, table));
    labels.lemma_multiset_has_no_duplicates();
    broadcast use vstd::seq_lib::group_to_multiset_ensures;

    assert(labels.contains(label));
    assert(labels.to_multiset().count(label) > 0);
}

fn holds(labels: &Vec<&String>, label: &String) -> (found: bool)
    ensures
        found == texts(labels@).contains(label@),
{
    let mut i: usize = 0;
    while i < labels.len()
        invariant
            i <= labels.len(),
            forall|k: int| 0 <= k < i ==> texts(labels@)[k] != label@,
        decreases labels.len() - i,
    {
        if *labels[i] == *label {
            assert(texts(labels@)[i as int] == label@);
            return true;
        }
        i += 1;
    }
    false
}

/// Derives the label of `workspace_node` from the windows it holds: the
/// label of each window class that `lookup` knows, each label once, in the
/// order of the first window that has it, separated by single spaces.
pub fn get_workspace_name(workspace_node: &LayoutNode, lookup: &Lookup) -> (name: String)
    ensures
        name@ == workspace_label(*workspace_node, lookup@),
{
    let leaves = get_leaf_content_nodes(workspace_node);
    let mut labels: Vec<&String> = Vec::new();
    let mut i: usize = 0;
    let ghost label_of = |leaf: LayoutNode| window_label(leaf, lookup@);
    while i < leaves.len()
        invariant
            i <= leaves.len(),
            label_of == |leaf: LayoutNode| window_label(leaf, lookup@),
            texts(labels@) == distinct(targets(leaves@).take(i as int).filter_map(label_of)),
        decreases leaves.len() - i,
    {
        let leaf = leaves[i];
        let ghost seen = targets(leaves@).take(i as int).filter_map(label_of);
        proof {
            targets(leaves@).lemma_filter_map_take_succ(label_of, i as int);
            lemma_distinct_keeps_elements(seen);
        }
        let found = match &leaf.window_properties {
            Some(properties) => match &properties.class {
                Some(class) => lookup.get(class.as_str()),
                None => None,
            },
            None => None,
        };
        let ghost next = targets(leaves@).take(i as int + 1).filter_map(label_of);
        assert(targets(leaves@)[i as int] == *leaf);
        if let Some(label) = found {
            assert(label_of(*leaf) == Some(label@));
            assert(next == seen.push(label@));
            assert(next.drop_last() == seen);
            if !holds(&labels, label) {
                let ghost before = labels@;
                labels.push(label);
                assert(texts(labels@) == texts(before).push(label@));
            }
        } else {
            assert(label_of(*leaf) is None);
            assert(next == seen);
        }
        assert(texts(labels@) == distinct(next));
        i += 1;
    }
    assert(targets(leaves@).take(i as int) == targets(leaves@));
    join_texts(&labels, " ")
}

} // verus!
