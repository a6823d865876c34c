//! The numbered workspaces of a snapshot, in ascending order of their number.

use crate::tree::{get_workspace_nodes, targets, workspace_nodes, InvalidTree, LayoutNode, NodeType};
use vstd::prelude::*;
use vstd::seq_lib::lemma_seq_contains_after_push;

verus! {

/// The number of a workspace; zero stands for a workspace without one.
pub open spec fn number_of(workspace: LayoutNode) -> int {
    match workspace.num {
        Some(n) => n as int,
        None => 0,
    }
}

/// A workspace is numbered when its number is at least one. Only numbered
/// workspaces are ever renamed.
pub open spec fn is_numbered(workspace: LayoutNode) -> bool {
    number_of(workspace) >= 1
}

/// The workspaces whose number is `limit` or less.
pub open spec fn numbered_at_most(limit: int) -> spec_fn(LayoutNode) -> bool {
    |w: LayoutNode| number_of(w) <= limit
}

/// The workspaces whose number is more than `limit`.
pub open spec fn numbered_above(limit: int) -> spec_fn(LayoutNode) -> bool {
    |w: LayoutNode| number_of(w) > limit
}

/// The workspaces whose number is `n`.
pub open spec fn numbered_as(n: int) -> spec_fn(LayoutNode) -> bool {
    |w: LayoutNode| number_of(w) == n
}

/// No workspace stands before one with a smaller number.
pub open spec fn ascending(workspaces: Seq<LayoutNode>) -> bool {
    forall|i: int, j: int|
        0 <= i <= j < workspaces.len() ==> number_of(workspaces[i]) <= number_of(workspaces[j])
}

/// `ordered` with `workspace` put behind the workspaces whose number is not
/// larger than its own, and before the others.
pub open spec fn placed(ordered: Seq<LayoutNode>, workspace: LayoutNode) -> Seq<LayoutNode> {
    ordered.filter(numbered_at_most(number_of(workspace))).push(workspace) + ordered.filter(
        numbered_above(number_of(workspace)),
    )
}

/// The workspaces in ascending order of their number; workspaces with the
/// same number keep the order they have in `workspaces`.
pub open spec fn by_number(workspaces: Seq<LayoutNode>) -> Seq<LayoutNode>
    decreases workspaces.len(),
{
    if workspaces.len() == 0 {
        workspaces
    } else {
        placed(by_number(workspaces.drop_last()), workspaces.last())
    }
}

/// The workspaces of a snapshot that a plan speaks of: those that are
/// numbered, in ascending order of their number, and in the order of the
/// snapshot where numbers are equal.
pub open spec fn numbered_workspaces(root: LayoutNode) -> Seq<LayoutNode> {
    by_number(workspace_nodes(root).filter(|w: LayoutNode| is_numbered(w)))
}

/// In an ascending sequence the workspaces with a number up to `limit` are
/// the part before position `at`, where `at` is the first position that
/// holds a larger number.
proof fn lemma_split_at(workspaces: Seq<LayoutNode>, limit: int, at: int)
    requires
        0 <= at <= workspaces.len(),
        forall|i: int| 0 <= i < at ==> number_of(workspaces[i]) <= limit,
        forall|i: int| at <= i < workspaces.len() ==> number_of(workspaces[i]) > limit,
    ensures
        workspaces.filter(numbered_at_most(limit)) == workspaces.take(at),
        workspaces.filter(numbered_above(limit)) == workspaces.skip(at),
    decreases workspaces.len(),
{
    reveal(Seq::filter);
    if workspaces.len() > 0 {
        let init = workspaces.drop_last();
        if at == workspaces.len() {
            lemma_split_at(init, limit, at - 1);
            assert(init.take(at - 1).push(workspaces.last()) == workspaces.take(at));
            assert(init.skip(at - 1) == workspaces.skip(at));
        } else {
            lemma_split_at(init, limit, at);
            assert(init.take(at) == workspaces.take(at));
            assert(init.skip(at).push(workspaces.last()) == workspaces.skip(at));
        }
    } else {
        assert(workspaces.take(at) == workspaces);
        assert(workspaces.skip(at) == workspaces);
    }
}

/// An ascending sequence has a position that parts the numbers up to
/// `limit` from the larger ones.
proof fn lemma_split_exists(workspaces: Seq<LayoutNode>, limit: int) -> (at: int)
    requires
        ascending(workspaces),
    ensures
        0 <= at <= workspaces.len(),
        forall|i: int| 0 <= i < at ==> number_of(workspaces[i]) <= limit,
        forall|i: int| at <= i < workspaces.len() ==> number_of(workspaces[i]) > limit,
    decreases workspaces.len(),
{
    if workspaces.len() == 0 {
        0
    } else if number_of(workspaces.last()) <= limit {
        workspaces.len() as int
    } else {
        let init = workspaces.drop_last();
        assert forall|i: int, j: int| 0 <= i <= j < init.len() implies number_of(init[i])
            <= number_of(init[j]) by {
            assert(init[i] == workspaces[i] && init[j] == workspaces[j]);
        }
        let at = lemma_split_exists(init, limit);
        assert forall|i: int| 0 <= i < at implies number_of(workspaces[i]) <= limit by {
            assert(init[i] == workspaces[i]);
        }
        assert forall|i: int| at <= i < workspaces.len() implies number_of(workspaces[i])
            > limit by {
            if i < init.len() {
                assert(init[i] == workspaces[i]);
            }
        }
        at
    }
}

/// Placing a workspace into an ascending sequence is inserting it behind
/// the last workspace whose number is not larger.
proof fn lemma_placed_is_insert(ordered: Seq<LayoutNode>, workspace: LayoutNode, at: int)
    requires
        0 <= at <= ordered.len(),
        forall|i: int| 0 <= i < at ==> number_of(ordered[i]) <= number_of(workspace),
        forall|i: int| at <= i < ordered.len() ==> number_of(ordered[i]) > number_of(workspace),
    ensures
        placed(ordered, workspace) == ordered.insert(at, workspace),
{
    lemma_split_at(ordered, number_of(workspace), at);
    assert(ordered.take(at) == ordered.subrange(0, at));
    assert(ordered.skip(at) == ordered.subrange(at, ordered.len() as int));
}

/// `by_number` is ascending.
pub proof fn lemma_by_number_ascending(workspaces: Seq<LayoutNode>)
    ensures
        ascending(by_number(workspaces)),
    decreases workspaces.len(),
{
    if workspaces.len() > 0 {
        let ordered = by_number(workspaces.drop_last());
        let last = workspaces.last();
        lemma_by_number_ascending(workspaces.drop_last());
        let at = lemma_split_exists(ordered, number_of(last));
        lemma_placed_is_insert(ordered, last, at);
        ordered.insert_ensures(at, last);
        let result = ordered.insert(at, last);
        assert forall|i: int, j: int| 0 <= i <= j < result.len() implies number_of(result[i])
            <= number_of(result[j]) by {
            if i < at {
                assert(result[i] == ordered[i]);
            } else if i > at {
                assert(result[i] == ordered[i - 1]);
            }
            if j < at {
                assert(result[j] == ordered[j]);
            } else if j > at {
                assert(result[j] == ordered[j - 1]);
            }
        }
    }
}

/// Filtering twice is filtering by the narrower test.
proof fn lemma_filter_within(
    workspaces: Seq<LayoutNode>,
    wide: spec_fn(LayoutNode) -> bool,
    narrow: spec_fn(LayoutNode) -> bool,
)
    requires
        forall|w: LayoutNode| #[trigger] narrow(w) ==> wide(w),
    ensures
        workspaces.filter(wide).filter(narrow) == workspaces.filter(narrow),
    decreases workspaces.len(),
{
    reveal(Seq::filter);
    if workspaces.len() > 0 {
        let init = workspaces.drop_last();
        lemma_filter_within(init, wide, narrow);
        init.filter(wide).lemma_filter_push(workspaces.last(), narrow);
    }
}

/// Filtering by two tests that exclude each other leaves nothing.
proof fn lemma_filter_outside(
    workspaces: Seq<LayoutNode>,
    first: spec_fn(LayoutNode) -> bool,
    second: spec_fn(LayoutNode) -> bool,
)
    requires
        forall|w: LayoutNode| #[trigger] second(w) ==> !first(w),
    ensures
        workspaces.filter(first).filter(second) == Seq::<LayoutNode>::empty(),
    decreases workspaces.len(),
{
    reveal(Seq::filter);
    if workspaces.len() > 0 {
        let init = workspaces.drop_last();
        lemma_filter_outside(init, first, second);
        init.filter(first).lemma_filter_push(workspaces.last(), second);
    }
}

/// For every number, `by_number` holds the workspaces with that number that
/// the sequence holds, in the order they have there.
pub proof fn lemma_by_number_keeps_each_number(workspaces: Seq<LayoutNode>, n: int)
    ensures
        by_number(workspaces).filter(numbered_as(n)) == workspaces.filter(numbered_as(n)),
    decreases workspaces.len(),
{
    if workspaces.len() > 0 {
        let init = workspaces.drop_last();
        let last = workspaces.last();
        let limit = number_of(last);
        let ordered = by_number(init);
        let low = ordered.filter(numbered_at_most(limit));
        let high = ordered.filter(numbered_above(limit));
        lemma_by_number_keeps_each_number(init, n);
        assert(workspaces == init.push(last));
        init.lemma_filter_push(last, numbered_as(n));
        low.lemma_filter_push(last, numbered_as(n));
        Seq::filter_distributes_over_add(low.push(last), high, numbered_as(n));
        if n <= limit {
            lemma_filter_within(ordered, numbered_at_most(limit), numbered_as(n));
            lemma_filter_outside(ordered, numbered_above(limit), numbered_as(n));
        } else {
            lemma_filter_outside(ordered, numbered_at_most(limit), numbered_as(n));
            lemma_filter_within(ordered, numbered_above(limit), numbered_as(n));
        }
    }
}

/// `by_number` holds exactly the workspaces that the sequence holds.
pub proof fn lemma_by_number_keeps_elements(workspaces: Seq<LayoutNode>)
    ensures
        forall|w: LayoutNode| by_number(workspaces).contains(w) <==> workspaces.contains(w),
    decreases workspaces.len(),
{
    if workspaces.len() > 0 {
        let init = workspaces.drop_last();
        let last = workspaces.last();
        let ordered = by_number(init);
        lemma_by_number_keeps_elements(init);
        lemma_by_number_ascending(init);
        let at = lemma_split_exists(ordered, number_of(last));
        lemma_placed_is_insert(ordered, last, at);
        ordered.insert_ensures(at, last);
        let result = ordered.insert(at, last);
        assert(workspaces == init.push(last));
        assert forall|w: LayoutNode| result.contains(w) <==> workspaces.contains(w) by {
            lemma_seq_contains_after_push(init, last, w);
            if ordered.contains(w) {
                let k = choose|k: int| 0 <= k < ordered.len() && ordered[k] == w;
                if k < at {
                    assert(result[k] == w);
                } else {
                    assert(result[k + 1] == w);
                }
            }
            if w == last {
                assert(result[at] == w);
            }
            if result.contains(w) {
                let k = choose|k: int| 0 <= k < result.len() && result[k] == w;
                if k < at {
                    assert(ordered[k] == w);
                } else if k > at {
                    assert(result[(k - 1) + 1] == ordered[k - 1]);
                    assert(ordered[k - 1] == w);
                }
            }
        }
    }
}

/// Whether `ordered` holds the workspaces of `source` by number: it is
/// ascending, and for every number it holds the workspaces with that number
/// that `source` holds, in the order they have there.
pub open spec fn is_ordering_of(ordered: Seq<LayoutNode>, source: Seq<LayoutNode>) -> bool {
    &&& ascending(ordered)
    &&& forall|n: int| #[trigger]
        ordered.filter(numbered_as(n)) == source.filter(numbered_as(n))
}

/// `by_number` orders its argument by number.
pub proof fn lemma_by_number_orders(workspaces: Seq<LayoutNode>)
    ensures
        is_ordering_of(by_number(workspaces), workspaces),
{
    lemma_by_number_ascending(workspaces);
    assert forall|n: int| #[trigger]
        by_number(workspaces).filter(numbered_as(n)) == workspaces.filter(
            numbered_as(n),
        ) by {
        lemma_by_number_keeps_each_number(workspaces, n);
    }
}

/// The numbered workspaces of a snapshot stand in ascending order of their
/// number, and those with the same number in the order of the snapshot.
pub proof fn lemma_numbered_workspaces_ordered(root: LayoutNode)
    ensures
        is_ordering_of(
            numbered_workspaces(root),
            workspace_nodes(root).filter(|w: LayoutNode| is_numbered(w)),
        ),
{
    lemma_by_number_orders(workspace_nodes(root).filter(|w: LayoutNode| is_numbered(w)));
}

/// The workspaces with the number of the last one end with the last one.
proof fn lemma_last_is_last_of_its_number(workspaces: Seq<LayoutNode>)
    requires
        workspaces.len() > 0,
    ensures
        workspaces.filter(numbered_as(number_of(workspaces.last()))) == workspaces.drop_last().filter(
            numbered_as(number_of(workspaces.last())),
        ).push(workspaces.last()),
        forall|n: int|
            n != number_of(workspaces.last()) ==> #[trigger] workspaces.filter(numbered_as(n))
                == workspaces.drop_last().filter(numbered_as(n)),
{
    reveal(Seq::filter);
}

/// There is one way only to order a sequence by number: two sequences that
/// both order `source` by number are the same.
pub proof fn lemma_ordering_is_unique(
    first: Seq<LayoutNode>,
    second: Seq<LayoutNode>,
    source: Seq<LayoutNode>,
)
    requires
        is_ordering_of(first, source),
        is_ordering_of(second, source),
    ensures
        first == second,
{
    assert forall|n: int| #[trigger]
        first.filter(numbered_as(n)) == second.filter(numbered_as(n)) by {
        assert(first.filter(numbered_as(n)) == source.filter(numbered_as(n)));
        assert(second.filter(numbered_as(n)) == source.filter(numbered_as(n)));
    }
    lemma_same_numbers_same_order(first, second);
}

/// Two ascending sequences that agree number by number are the same.
proof fn lemma_same_numbers_same_order(first: Seq<LayoutNode>, second: Seq<LayoutNode>)
    requires
        ascending(first),
        ascending(second),
        forall|n: int| #[trigger]
            first.filter(numbered_as(n)) == second.filter(numbered_as(n)),
    ensures
        first == second,
    decreases first.len(),
{
    if first.len() == 0 {
        if second.len() > 0 {
            lemma_last_is_last_of_its_number(second);
            let m = number_of(second.last());
            assert(second.filter(numbered_as(m)).len() > 0);
            assert(first.filter(numbered_as(m)) == second.filter(numbered_as(m)));
            first.lemma_filter_len(numbered_as(m));
        }
    } else {
        let x = first.last();
        let k = number_of(x);
        lemma_last_is_last_of_its_number(first);
        assert(first.filter(numbered_as(k)) == second.filter(numbered_as(k)));
        assert(first.filter(numbered_as(k)).len() > 0);
        second.lemma_filter_len(numbered_as(k));
        let y = second.last();
        let m = number_of(y);
        lemma_last_is_last_of_its_number(second);
        assert(first.filter(numbered_as(m)) == second.filter(numbered_as(m)));
        assert(m <= k) by {
            let same = first.filter(numbered_as(m));
            assert(same.last() == y);
            assert(same.contains(y));
            first.lemma_filter_contains_rev(numbered_as(m), y);
            let i = choose|i: int| 0 <= i < first.len() && first[i] == y;
            assert(number_of(first[i]) <= number_of(first[first.len() - 1]));
        }
        assert(k <= m) by {
            let same = second.filter(numbered_as(k));
            assert(same.last() == x);
            assert(same.contains(x));
            second.lemma_filter_contains_rev(numbered_as(k), x);
            let i = choose|i: int| 0 <= i < second.len() && second[i] == x;
            assert(number_of(second[i]) <= number_of(second[second.len() - 1]));
        }
        assert(x == y) by {
            assert(first.filter(numbered_as(k)).last() == x);
            assert(second.filter(numbered_as(k)).last() == y);
        }
        let shorter = first.drop_last();
        let other = second.drop_last();
        assert forall|i: int, j: int| 0 <= i <= j < shorter.len() implies number_of(shorter[i])
            <= number_of(shorter[j]) by {
            assert(shorter[i] == first[i] && shorter[j] == first[j]);
        }
        assert forall|i: int, j: int| 0 <= i <= j < other.len() implies number_of(other[i])
            <= number_of(other[j]) by {
            assert(other[i] == second[i] && other[j] == second[j]);
        }
        assert forall|n: int| #[trigger]
            shorter.filter(numbered_as(n)) == other.filter(numbered_as(n)) by {
            assert(first.filter(numbered_as(n)) == second.filter(numbered_as(n)));
            if n == k {
                assert(shorter.filter(numbered_as(n)) == first.filter(
                    numbered_as(n),
                ).drop_last());
                assert(other.filter(numbered_as(n)) == second.filter(
                    numbered_as(n),
                ).drop_last());
            }
        }
        lemma_same_numbers_same_order(shorter, other);
        assert(first == shorter.push(x));
        assert(second == other.push(y));
    }
}

fn number(workspace: &LayoutNode) -> (n: i32)
    ensures
        n as int == number_of(*workspace),
{
    match workspace.num {
        Some(n) => n,
        None => 0,
    }
}

/// Puts `workspace` into `ordered` behind the workspaces whose number is not
/// larger than its own.
fn place<'a>(ordered: &mut Vec<&'a LayoutNode>, workspace: &'a LayoutNode)
    requires
        ascending(targets(old(ordered)@)),
    ensures
        targets(final(ordered)@) == placed(targets(old(ordered)@), *workspace),
        ascending(targets(final(ordered)@)),
{
    let n = number(workspace);
    let mut at: usize = 0;
    while at < ordered.len() && number(ordered[at]) <= n
        invariant
            at <= ordered.len(),
            ordered@ == old(ordered)@,
            forall|i: int| 0 <= i < at ==> number_of(targets(ordered@)[i]) <= n,
        decreases ordered.len() - at,
    {
        at += 1;
    }
    proof {
        let before = targets(ordered@);
        assert forall|i: int| at <= i < before.len() implies number_of(before[i]) > n by {
            assert(number_of(before[at as int]) <= number_of(before[i]));
        }
        lemma_placed_is_insert(before, *workspace, at as int);
        before.insert_ensures(at as int, *workspace);
        let result = before.insert(at as int, *workspace);
        assert forall|i: int, j: int| 0 <= i <= j < result.len() implies number_of(result[i])
            <= number_of(result[j]) by {
            if i < at {
                assert(result[i] == before[i]);
            } else if i > at {
                assert(result[i] == before[i - 1]);
            }
            if j < at {
                assert(result[j] == before[j]);
            } else if j > at {
                assert(result[j] == before[j - 1]);
            }
        }
    }
    ordered.insert(at, workspace);
    assert(targets(ordered@) == targets(old(ordered)@).insert(at as int, *workspace));
}

/// Collects the numbered workspaces of a snapshot in ascending order of
/// their number. Workspaces with the same number keep the order of the
/// snapshot. Like the walk it rests on, this starts at the root of the
/// tree and fails on any other node.
pub fn get_numbered_workspaces(root: &LayoutNode) -> (result: Result<
    Vec<&LayoutNode>,
    InvalidTree,
>)
    ensures
        match result {
            Ok(workspaces) => root.node_type == NodeType::Root && targets(workspaces@)
                == numbered_workspaces(*root),
            Err(fault) => root.node_type != NodeType::Root && fault == InvalidTree::RootExpected,
        },
{
    let all = match get_workspace_nodes(root) {
        Ok(all) => all,
        Err(fault) => {
            return Err(fault);
        },
    };
    let mut ordered: Vec<&LayoutNode> = Vec::new();
    let mut i: usize = 0;
    let ghost numbered = |w: LayoutNode| is_numbered(w);
    while i < all.len()
        invariant
            i <= all.len(),
            numbered == |w: LayoutNode| is_numbered(w),
            ascending(targets(ordered@)),
            targets(ordered@) == by_number(targets(all@).take(i as int).filter(numbered)),
        decreases all.len() - i,
    {
        let workspace = all[i];
        proof {
            let seen = targets(all@).take(i as int);
            targets(all@).lemma_take_succ_push(i as int);
            seen.lemma_filter_push(*workspace, numbered);
            assert(seen.filter(numbered).push(*workspace).drop_last() == seen.filter(numbered));
        }
        if number(workspace) >= 1 {
            place(&mut ordered, workspace);
        }
        i += 1;
    }
    assert(targets(all@).take(i as int) == targets(all@));
    Ok(ordered)
}

} // verus!
