//! The rename plan of a snapshot: for each numbered workspace the name it
//! has and the name it should have.
//!
//! A workspace is named after its number alone while none of its windows has
//! a label, and `<number>: <label>` otherwise. Directives are issued in
//! ascending order of workspace number.

use crate::label::{
    get_workspace_name, lemma_no_label_no_labels, window_label, workspace_label,
};
use crate::lookup::Lookup;
use crate::order::{
    by_number, get_numbered_workspaces, is_numbered, lemma_by_number_keeps_elements, number_of,
    numbered_workspaces,
};
use crate::text::{decimal, decimal_text};
use crate::tree::{
    leaf_content_nodes, targets, workspace_nodes, InvalidTree, LayoutNode, NodeType,
};
use vstd::prelude::*;
use vstd::string::StringExecFns;

verus! {

/// One instruction of a plan: give the workspace that is now called
/// `old_name` the name `new_name`.
#[derive(Debug, PartialEq, Eq)]
pub struct RenameDirective {
    pub old_name: String,
    pub new_name: String,
}

impl View for RenameDirective {
    type V = (Seq<char>, Seq<char>);

    open spec fn view(&self) -> (Seq<char>, Seq<char>) {
        (self.old_name@, self.new_name@)
    }
}

/// A plan as pairs of old and new name.
pub open spec fn directives(plan: Seq<RenameDirective>) -> Seq<(Seq<char>, Seq<char>)> {
    plan.map_values(|directive: RenameDirective| directive@)
}

/// The name of a workspace with the given number and label.
pub open spec fn full_name(number: int, label: Seq<char>) -> Seq<char> {
    if label.len() == 0 {
        decimal(number)
    } else {
        decimal(number) + ": "@ + label
    }
}

/// The name that `workspace` should have.
pub open spec fn new_name(workspace: LayoutNode, table: Map<Seq<char>, Seq<char>>) -> Seq<char> {
    full_name(number_of(workspace), workspace_label(workspace, table))
}

/// The name that `workspace` has in the snapshot.
pub open spec fn current_name(workspace: LayoutNode) -> Seq<char>
    recommends
        workspace.name is Some,
{
    match workspace.name {
        Some(name) => name@,
        None => Seq::empty(),
    }
}

/// Whether a plan holds a directive for `workspace`: it does unless the
/// workspace shows no labelled window and already has the name it should
/// have.
pub open spec fn needs_directive(workspace: LayoutNode, table: Map<Seq<char>, Seq<char>>) -> bool {
    workspace_label(workspace, table).len() > 0 || current_name(workspace) != new_name(
        workspace,
        table,
    )
}

/// The directive for `workspace`.
pub open spec fn directive_for(workspace: LayoutNode, table: Map<Seq<char>, Seq<char>>) -> (
    Seq<char>,
    Seq<char>,
) {
    (current_name(workspace), new_name(workspace, table))
}

/// The plan of a snapshot: the directives of its numbered workspaces, in
/// ascending order of their number.
pub open spec fn rename_plan(root: LayoutNode, table: Map<Seq<char>, Seq<char>>) -> Seq<
    (Seq<char>, Seq<char>),
> {
    numbered_workspaces(root).filter(|w: LayoutNode| needs_directive(w, table)).map_values(
        |w: LayoutNode| directive_for(w, table),
    )
}

/// Every workspace of the sequence has a name.
pub open spec fn all_named(workspaces: Seq<LayoutNode>) -> bool {
    forall|i: int| 0 <= i < workspaces.len() ==> (#[trigger] workspaces[i]).name is Some
}

/// What planning on `root` gives: the plan, or the reason why the tree
/// cannot be planned on. A tree that does not start at a root is refused
/// first; a snapshot with a numbered workspace that has no name is refused
/// because no rename could address that workspace.
pub open spec fn plan_outcome(root: LayoutNode, table: Map<Seq<char>, Seq<char>>) -> Result<
    Seq<(Seq<char>, Seq<char>)>,
    InvalidTree,
> {
    if root.node_type != NodeType::Root {
        Err(InvalidTree::RootExpected)
    } else if !all_named(numbered_workspaces(root)) {
        Err(InvalidTree::WorkspaceUnnamed)
    } else {
        Ok(rename_plan(root, table))
    }
}

/// The outcome of planning as pairs of old and new name.
pub open spec fn plan_view(result: Result<Vec<RenameDirective>, InvalidTree>) -> Result<
    Seq<(Seq<char>, Seq<char>)>,
    InvalidTree,
> {
    match result {
        Ok(plan) => Ok(directives(plan@)),
        Err(fault) => Err(fault),
    }
}

/// The text of the command that carries out a directive.
pub open spec fn command_text(directive: (Seq<char>, Seq<char>)) -> Seq<char> {
    "rename workspace \""@ + directive.0 + "\" to \""@ + directive.1 + "\""@
}

/// The outcome of planning as command texts.
pub open spec fn commands_outcome(root: LayoutNode, table: Map<Seq<char>, Seq<char>>) -> Result<
    Seq<Seq<char>>,
    InvalidTree,
> {
    match plan_outcome(root, table) {
        Ok(plan) => Ok(plan.map_values(|directive: (Seq<char>, Seq<char>)| command_text(directive))),
        Err(fault) => Err(fault),
    }
}

/// What each string of a sequence holds.
pub open spec fn contents(strings: Seq<String>) -> Seq<Seq<char>> {
    strings.map_values(|s: String| s@)
}

/// The outcome of composing commands as texts.
pub open spec fn commands_view(result: Result<Vec<String>, InvalidTree>) -> Result<
    Seq<Seq<char>>,
    InvalidTree,
> {
    match result {
        Ok(commands) => Ok(contents(commands@)),
        Err(fault) => Err(fault),
    }
}

/// A filter that nothing passes leaves nothing.
proof fn lemma_filter_none(workspaces: Seq<LayoutNode>, test: spec_fn(LayoutNode) -> bool)
    requires
        forall|i: int| 0 <= i < workspaces.len() ==> !test(#[trigger] workspaces[i]),
    ensures
        workspaces.filter(test) == Seq::<LayoutNode>::empty(),
    decreases workspaces.len(),
{
    reveal(Seq::filter);
    if workspaces.len() > 0 {
        let init = workspaces.drop_last();
        assert forall|i: int| 0 <= i < init.len() implies !test(#[trigger] init[i]) by {
            assert(init[i] == workspaces[i]);
        }
        lemma_filter_none(init, test);
        assert(!test(workspaces[workspaces.len() - 1]));
    }
}

/// A snapshot without a numbered workspace has the empty plan.
pub proof fn lemma_no_numbered_workspace_empty_plan(
    root: LayoutNode,
    table: Map<Seq<char>, Seq<char>>,
)
    requires
        root.node_type == NodeType::Root,
        forall|i: int|
            0 <= i < workspace_nodes(root).len() ==> !is_numbered(
                #[trigger] workspace_nodes(root)[i],
            ),
    ensures
        plan_outcome(root, table) == Ok::<Seq<(Seq<char>, Seq<char>)>, InvalidTree>(Seq::empty()),
{
    lemma_filter_none(workspace_nodes(root), |w: LayoutNode| is_numbered(w));
    assert(numbered_workspaces(root) == Seq::<LayoutNode>::empty());
    lemma_filter_none(numbered_workspaces(root), |w: LayoutNode| needs_directive(w, table));
    assert(rename_plan(root, table) == Seq::<(Seq<char>, Seq<char>)>::empty());
}

/// A workspace none of whose windows has a label has the empty label, and
/// the name it should have is its number.
pub proof fn lemma_unlabelled_workspace_named_by_number(
    workspace: LayoutNode,
    table: Map<Seq<char>, Seq<char>>,
)
    requires
        forall|i: int|
            0 <= i < leaf_content_nodes(workspace).len() ==> window_label(
                #[trigger] leaf_content_nodes(workspace)[i],
                table,
            ) is None,
    ensures
        workspace_label(workspace, table) == Seq::<char>::empty(),
        new_name(workspace, table) == decimal(number_of(workspace)),
{
    lemma_no_label_no_labels(leaf_content_nodes(workspace), table);
}

/// Every directive of a plan is the directive of a numbered workspace of
/// the snapshot. A workspace whose number is zero or less, or that has no
/// number, has no part in any plan, whatever it holds.
pub proof fn lemma_directive_has_numbered_workspace(
    root: LayoutNode,
    table: Map<Seq<char>, Seq<char>>,
    i: int,
) -> (workspace: LayoutNode)
    requires
        0 <= i < rename_plan(root, table).len(),
    ensures
        workspace_nodes(root).contains(workspace),
        is_numbered(workspace),
        needs_directive(workspace, table),
        rename_plan(root, table)[i] == directive_for(workspace, table),
{
    let needed = |w: LayoutNode| needs_directive(w, table);
    let numbered = |w: LayoutNode| is_numbered(w);
    let chosen = numbered_workspaces(root).filter(needed);
    let workspace = chosen[i];
    let kept = workspace_nodes(root).filter(numbered);
    assert(chosen.contains(workspace));
    numbered_workspaces(root).lemma_filter_contains_rev(needed, workspace);
    assert(by_number(kept).contains(workspace));
    lemma_by_number_keeps_elements(kept);
    assert(kept.contains(workspace));
    workspace_nodes(root).lemma_filter_contains_rev(numbered, workspace);
    let at = choose|k: int| 0 <= k < kept.len() && kept[k] == workspace;
    workspace_nodes(root).lemma_filter_pred(numbered, at);
    numbered_workspaces(root).lemma_filter_pred(needed, i);
    workspace
}

/// A workspace that is not numbered is not among the workspaces that a plan
/// speaks of.
pub proof fn lemma_unnumbered_workspace_left_out(root: LayoutNode, workspace: LayoutNode)
    requires
        !is_numbered(workspace),
    ensures
        !numbered_workspaces(root).contains(workspace),
{
    let numbered = |w: LayoutNode| is_numbered(w);
    let kept = workspace_nodes(root).filter(numbered);
    lemma_by_number_keeps_elements(kept);
    if kept.contains(workspace) {
        let at = choose|k: int| 0 <= k < kept.len() && kept[k] == workspace;
        workspace_nodes(root).lemma_filter_pred(numbered, at);
    }
}

/// Planning twice on the same snapshot with the same table gives the same
/// outcome.
pub proof fn lemma_plan_repeats(
    tree: LayoutNode,
    lookup: Lookup,
    first: Result<Vec<RenameDirective>, InvalidTree>,
    second: Result<Vec<RenameDirective>, InvalidTree>,
)
    requires
        plan_view(first) == plan_outcome(tree, lookup@),
        plan_view(second) == plan_outcome(tree, lookup@),
    ensures
        plan_view(first) == plan_view(second),
{
}

fn compose_name(number: i32, label: &String) -> (name: String)
    ensures
        name@ == full_name(number as int, label@),
{
    let mut name = decimal_text(number);
    if !label.as_str().is_empty() {
        name.append(": ");
        name.append(label.as_str());
    }
    name
}

/// Plans the renames for the snapshot `tree`: one directive for each
/// numbered workspace, in ascending order of workspace number, from the name
/// the workspace has to the name built from its number and the labels that
/// `lookup` gives to its windows. A workspace that shows no labelled window
/// and already carries its number as its name gets no directive.
pub fn plan_renames(tree: &LayoutNode, lookup: &Lookup) -> (result: Result<
    Vec<RenameDirective>,
    InvalidTree,
>)
    ensures
        plan_view(result) == plan_outcome(*tree, lookup@),
{
    let workspaces = match get_numbered_workspaces(tree) {
        Ok(workspaces) => workspaces,
        Err(fault) => {
            return Err(fault);
        },
    };
    let mut plan: Vec<RenameDirective> = Vec::new();
    let mut i: usize = 0;
    let ghost needed = |w: LayoutNode| needs_directive(w, lookup@);
    let ghost directive = |w: LayoutNode| directive_for(w, lookup@);
    while i < workspaces.len()
        invariant
            i <= workspaces.len(),
            tree.node_type == NodeType::Root,
            targets(workspaces@) == numbered_workspaces(*tree),
            needed == |w: LayoutNode| needs_directive(w, lookup@),
            directive == |w: LayoutNode| directive_for(w, lookup@),
            all_named(targets(workspaces@).take(i as int)),
            directives(plan@) == targets(workspaces@).take(i as int).filter(needed).map_values(
                directive,
            ),
        decreases workspaces.len() - i,
    {
        let workspace = workspaces[i];
        let ghost seen = targets(workspaces@).take(i as int);
        assert(targets(workspaces@)[i as int] == *workspace);
        let old_name = match &workspace.name {
            Some(name) => name,
            None => {
                return Err(InvalidTree::WorkspaceUnnamed);
            },
        };
        let number = match workspace.num {
            Some(n) => n,
            None => 0,
        };
        let label = get_workspace_name(workspace, lookup);
        let name = compose_name(number, &label);
        proof {
            targets(workspaces@).lemma_take_succ_push(i as int);
            seen.lemma_filter_push(*workspace, needed);
            assert forall|k: int| 0 <= k < i + 1 implies (#[trigger] seen.push(
                *workspace,
            )[k]).name is Some by {
                if k < i {
                    assert(seen[k].name is Some);
                }
            }
        }
        if !label.as_str().is_empty() || !(*old_name == name) {
            let ghost before = plan@;
            plan.push(RenameDirective { old_name: old_name.clone(), new_name: name });
            assert(directives(plan@) == directives(before).push(directive(*workspace)));
            assert(seen.filter(needed).push(*workspace).map_values(directive) == seen.filter(
                needed,
            ).map_values(directive).push(directive(*workspace)));
        }
        i += 1;
    }
    assert(targets(workspaces@).take(i as int) == targets(workspaces@));
    Ok(plan)
}

/// Writes the command that carries out `directive`.
pub fn rename_command(directive: &RenameDirective) -> (command: String)
    ensures
        command@ == command_text(directive@),
{
    let mut command = "rename workspace \"".to_owned();
    command.append(directive.old_name.as_str());
    command.append("\" to \"");
    command.append(directive.new_name.as_str());
    command.append("\"");
    command
}

/// Plans the renames for the snapshot `tree` and writes the command for each
/// directive, in the order of the plan.
pub fn get_workspace_rename_commands(tree: &LayoutNode, lookup: &Lookup) -> (result: Result<
    Vec<String>,
    InvalidTree,
>)
    ensures
        commands_view(result) == commands_outcome(*tree, lookup@),
{
    let plan = match plan_renames(tree, lookup) {
        Ok(plan) => plan,
        Err(fault) => {
            return Err(fault);
        },
    };
    let mut commands: Vec<String> = Vec::new();
    let mut i: usize = 0;
    let ghost text = |directive: (Seq<char>, Seq<char>)| command_text(directive);
    while i < plan.len()
        invariant
            i <= plan.len(),
            text == |directive: (Seq<char>, Seq<char>)| command_text(directive),
            contents(commands@) == directives(plan@).take(i as int).map_values(text),
        decreases plan.len() - i,
    {
        let ghost before = commands@;
        commands.push(rename_command(&plan[i]));
        proof {
            directives(plan@).lemma_map_take_succ(text, i as int);
            assert(contents(commands@) == contents(before).push(command_text(plan@[i as int]@)));
        }
        i += 1;
    }
    assert(directives(plan@).take(i as int) == directives(plan@));
    Ok(commands)
}

} // verus!
