//! The decisions of the event watcher.
//!
//! The watcher listens to the events of the window manager. An event that
//! can change what a workspace shows starts a replan cycle: fetch a
//! snapshot, plan, and send the commands of the plan one after the other,
//! each when the one before has been answered. The task itself waits on
//! the event stream and on the command actor. What it does with what
//! arrives is decided here.

use crate::actor::{Request, RequestView};
use crate::lookup::Lookup;
use crate::planner::{commands_outcome, contents, get_workspace_rename_commands};
use crate::tree::{InvalidTree, LayoutNode};
use vstd::prelude::*;

verus! {

/// What happened to a window.
#[derive(Clone, Copy, Debug, PartialEq, Eq, Structural)]
pub enum WindowChange {
    New,
    Close,
    Focus,
    Title,
    FullscreenMode,
    Move,
    Floating,
    Urgent,
    Mark,
}

/// What happened to a workspace.
#[derive(Clone, Copy, Debug, PartialEq, Eq, Structural)]
pub enum WorkspaceChange {
    Focus,
    Init,
    Empty,
    Urgent,
    Rename,
    Reload,
    Restored,
    Move,
}

/// An event of the window manager, as far as the watcher tells events apart.
#[derive(Clone, Copy, Debug, PartialEq, Eq, Structural)]
pub enum WatchedEvent {
    Window(WindowChange),
    Workspace(WorkspaceChange),
    /// An event that is neither about a window nor about a workspace.
    Other,
}

/// What the event stream hands out.
#[derive(Clone, Copy, Debug, PartialEq, Eq, Structural)]
pub enum StreamItem {
    Event(WatchedEvent),
    /// The stream reported an error.
    Failed,
    /// The stream is at its end.
    Ended,
}

/// Why the watcher ends.
#[derive(Clone, Copy, Debug, PartialEq, Eq, Structural)]
pub enum WatcherEnd {
    StreamFailed,
    StreamEnded,
    /// A request of a replan cycle could not be submitted or came back as a
    /// fault.
    SubmitFailed,
}

/// What the watcher's task is to do next.
#[derive(Clone, Copy, Debug, PartialEq, Eq, Structural)]
pub enum WatcherAction {
    /// Start a replan cycle.
    Replan,
    /// Go on listening.
    Ignore,
    /// End the task and report why.
    Stop(WatcherEnd),
}

/// Whether an event can change which windows a workspace shows. That is so
/// when a window appears, closes, moves or changes between tiled and
/// floating, and when a workspace appears, becomes empty or moves.
pub open spec fn calls_for_replan(event: WatchedEvent) -> bool {
    match event {
        WatchedEvent::Window(change) => change == WindowChange::New || change
            == WindowChange::Close || change == WindowChange::Move || change
            == WindowChange::Floating,
        WatchedEvent::Workspace(change) => change == WorkspaceChange::Init || change
            == WorkspaceChange::Empty || change == WorkspaceChange::Move,
        WatchedEvent::Other => false,
    }
}

/// What the watcher does on an item of the event stream.
pub open spec fn reaction(item: StreamItem) -> WatcherAction {
    match item {
        StreamItem::Event(event) => if calls_for_replan(event) {
            WatcherAction::Replan
        } else {
            WatcherAction::Ignore
        },
        StreamItem::Failed => WatcherAction::Stop(WatcherEnd::StreamFailed),
        StreamItem::Ended => WatcherAction::Stop(WatcherEnd::StreamEnded),
    }
}

/// Decides what the watcher does on `item`.
pub fn watcher_step(item: StreamItem) -> (action: WatcherAction)
    ensures
        action == reaction(item),
{
    match item {
        StreamItem::Event(WatchedEvent::Window(change)) => match change {
            WindowChange::New | WindowChange::Close | WindowChange::Move
            | WindowChange::Floating => WatcherAction::Replan,
            _ => WatcherAction::Ignore,
        },
        StreamItem::Event(WatchedEvent::Workspace(change)) => match change {
            WorkspaceChange::Init | WorkspaceChange::Empty | WorkspaceChange::Move => {
                WatcherAction::Replan
            },
            _ => WatcherAction::Ignore,
        },
        StreamItem::Event(WatchedEvent::Other) => WatcherAction::Ignore,
        StreamItem::Failed => WatcherAction::Stop(WatcherEnd::StreamFailed),
        StreamItem::Ended => WatcherAction::Stop(WatcherEnd::StreamEnded),
    }
}

/// How a replan cycle ended.
#[derive(Clone, Copy, Debug, PartialEq, Eq, Structural)]
pub enum CycleEnd {
    /// Every command of the plan was sent and answered.
    Completed,
    /// The snapshot could not be planned on. Nothing was sent.
    Abandoned(InvalidTree),
    /// A request could not be submitted or came back as a fault.
    SubmitFailed,
}

/// What the watcher does when a replan cycle has ended. A snapshot that
/// cannot be planned on costs that one cycle; a request that failed ends the
/// watcher.
pub open spec fn verdict(end: CycleEnd) -> WatcherAction {
    match end {
        CycleEnd::Completed => WatcherAction::Ignore,
        CycleEnd::Abandoned(_) => WatcherAction::Ignore,
        CycleEnd::SubmitFailed => WatcherAction::Stop(WatcherEnd::SubmitFailed),
    }
}

/// Decides what the watcher does when a replan cycle has ended with `end`.
pub fn after_cycle(end: CycleEnd) -> (action: WatcherAction)
    ensures
        action == verdict(end),
{
    match end {
        CycleEnd::Completed => WatcherAction::Ignore,
        CycleEnd::Abandoned(_) => WatcherAction::Ignore,
        CycleEnd::SubmitFailed => WatcherAction::Stop(WatcherEnd::SubmitFailed),
    }
}

/// The state of a replan cycle between two events.
#[derive(Debug, PartialEq, Eq)]
pub enum CycleState {
    /// Nothing has been asked yet.
    Ready,
    /// The snapshot has been asked for.
    AwaitingTree,
    /// The command at position `current` of `commands` has been sent; those
    /// before it have been answered.
    Renaming { commands: Vec<String>, current: usize },
    Finished(CycleEnd),
}

/// What can arrive at a replan cycle.
#[derive(Debug, PartialEq, Eq)]
pub enum CycleEvent {
    /// The event that starts the cycle.
    Triggered,
    /// The snapshot that was asked for.
    TreeFetched(LayoutNode),
    /// The answer to the command that was sent last. Whether the window
    /// manager carried the command out or rejected it makes no difference
    /// to the cycle.
    Answered,
    /// The request that was submitted last could not be submitted or came
    /// back as a fault.
    SubmitFailed,
}

/// What the task that runs the cycle is to do next.
#[derive(Debug, PartialEq, Eq)]
pub enum CycleAction {
    /// Submit the request to the command actor and wait for the answer.
    Submit(Request),
    /// The cycle is over.
    Finish(CycleEnd),
    /// The event does not fit the state. Nothing is to be done and the state
    /// is unchanged.
    OutOfTurn,
}

/// The state of a cycle as plain values.
pub enum CycleStateView {
    Ready,
    AwaitingTree,
    Renaming { commands: Seq<Seq<char>>, current: nat },
    Finished(CycleEnd),
}

/// An action of a cycle as plain values.
pub enum CycleActionView {
    Submit(RequestView),
    Finish(CycleEnd),
    OutOfTurn,
}

impl View for CycleState {
    type V = CycleStateView;

    open spec fn view(&self) -> CycleStateView {
        match *self {
            CycleState::Ready => CycleStateView::Ready,
            CycleState::AwaitingTree => CycleStateView::AwaitingTree,
            CycleState::Renaming { commands, current } => CycleStateView::Renaming {
                commands: contents(commands@),
                current: current as nat,
            },
            CycleState::Finished(end) => CycleStateView::Finished(end),
        }
    }
}

impl View for CycleAction {
    type V = CycleActionView;

    open spec fn view(&self) -> CycleActionView {
        match *self {
            CycleAction::Submit(request) => CycleActionView::Submit(request@),
            CycleAction::Finish(end) => CycleActionView::Finish(end),
            CycleAction::OutOfTurn => CycleActionView::OutOfTurn,
        }
    }
}

/// The step that sends the command at position `next`, or ends the cycle
/// when no command is left.
pub open spec fn proceed(commands: Seq<Seq<char>>, next: nat) -> (CycleStateView, CycleActionView) {
    if next < commands.len() {
        (
            CycleStateView::Renaming { commands, current: next },
            CycleActionView::Submit(RequestView::Execute(commands[next as int])),
        )
    } else {
        (
            CycleStateView::Finished(CycleEnd::Completed),
            CycleActionView::Finish(CycleEnd::Completed),
        )
    }
}

/// The next state and the action of a replan cycle for each state and
/// event.
///
/// The cycle asks for a snapshot first. When the snapshot arrives, it is
/// planned on with `table`: a snapshot that cannot be planned on ends the
/// cycle, otherwise the first command of the plan is sent. Each answer
/// sends the next command, and the answer to the last one ends the cycle. A
/// request that fails ends the cycle at once.
pub open spec fn cycle_transition(
    state: CycleStateView,
    event: CycleEvent,
    table: Map<Seq<char>, Seq<char>>,
) -> (CycleStateView, CycleActionView) {
    match state {
        CycleStateView::Ready => match event {
            CycleEvent::Triggered => (
                CycleStateView::AwaitingTree,
                CycleActionView::Submit(RequestView::FetchTree),
            ),
            _ => (state, CycleActionView::OutOfTurn),
        },
        CycleStateView::AwaitingTree => match event {
            CycleEvent::TreeFetched(tree) => match commands_outcome(tree, table) {
                Ok(commands) => proceed(commands, 0),
                Err(fault) => (
                    CycleStateView::Finished(CycleEnd::Abandoned(fault)),
                    CycleActionView::Finish(CycleEnd::Abandoned(fault)),
                ),
            },
            CycleEvent::SubmitFailed => (
                CycleStateView::Finished(CycleEnd::SubmitFailed),
                CycleActionView::Finish(CycleEnd::SubmitFailed),
            ),
            _ => (state, CycleActionView::OutOfTurn),
        },
        CycleStateView::Renaming { commands, current } => match event {
            CycleEvent::Answered => proceed(commands, current + 1),
            CycleEvent::SubmitFailed => (
                CycleStateView::Finished(CycleEnd::SubmitFailed),
                CycleActionView::Finish(CycleEnd::SubmitFailed),
            ),
            _ => (state, CycleActionView::OutOfTurn),
        },
        CycleStateView::Finished(_) => (state, CycleActionView::OutOfTurn),
    }
}

/// The state of a cycle that started ready and has seen `events`.
pub open spec fn cycle_state_after(
    events: Seq<CycleEvent>,
    table: Map<Seq<char>, Seq<char>>,
) -> CycleStateView
    decreases events.len(),
{
    if events.len() == 0 {
        CycleStateView::Ready
    } else {
        cycle_transition(cycle_state_after(events.drop_last(), table), events.last(), table).0
    }
}

/// The actions of a cycle that started ready and has seen `events`, one for
/// each event.
pub open spec fn cycle_actions_of(
    events: Seq<CycleEvent>,
    table: Map<Seq<char>, Seq<char>>,
) -> Seq<CycleActionView>
    decreases events.len(),
{
    if events.len() == 0 {
        Seq::empty()
    } else {
        cycle_actions_of(events.drop_last(), table).push(
            cycle_transition(
                cycle_state_after(events.drop_last(), table),
                events.last(),
                table,
            ).1,
        )
    }
}

/// The events of a cycle on the snapshot `tree` in which every request is
/// answered, up to the answer to the command at position `answers - 1`.
pub open spec fn answered_run(tree: LayoutNode, answers: nat) -> Seq<CycleEvent> {
    seq![CycleEvent::Triggered, CycleEvent::TreeFetched(tree)] + Seq::new(
        answers,
        |i: int| CycleEvent::Answered,
    )
}

/// A cycle in which every request is answered asks for the snapshot, then
/// sends the commands of the plan in their order, each after the answer to
/// the one before, and ends when the last one has been answered.
pub proof fn lemma_cycle_sends_plan_in_order(
    tree: LayoutNode,
    table: Map<Seq<char>, Seq<char>>,
    answers: nat,
)
    requires
        commands_outcome(tree, table) is Ok,
        answers <= commands_outcome(tree, table)->Ok_0.len(),
    ensures
        cycle_state_after(answered_run(tree, answers), table) == proceed(
            commands_outcome(tree, table)->Ok_0,
            answers,
        ).0,
        cycle_actions_of(answered_run(tree, answers), table) == seq![
            CycleActionView::Submit(RequestView::FetchTree),
        ] + Seq::new(
            answers + 1,
            |i: int| proceed(commands_outcome(tree, table)->Ok_0, i as nat).1,
        ),
    decreases answers,
{
    let commands = commands_outcome(tree, table)->Ok_0;
    let expected = |n: nat|
        seq![CycleActionView::Submit(RequestView::FetchTree)] + Seq::new(
            n + 1,
            |i: int| proceed(commands, i as nat).1,
        );
    if answers == 0 {
        let first = seq![CycleEvent::Triggered];
        let both = answered_run(tree, 0);
        assert(first.drop_last() == Seq::<CycleEvent>::empty());
        assert(first.last() == CycleEvent::Triggered);
        assert(cycle_state_after(Seq::<CycleEvent>::empty(), table) == CycleStateView::Ready);
        assert(cycle_actions_of(Seq::<CycleEvent>::empty(), table) == Seq::<
            CycleActionView,
        >::empty());
        assert(cycle_state_after(first, table) == CycleStateView::AwaitingTree);
        assert(cycle_actions_of(first, table) == seq![
            CycleActionView::Submit(RequestView::FetchTree),
        ]);
        assert(both.drop_last() == first);
        assert(both.last() == CycleEvent::TreeFetched(tree));
        assert(cycle_actions_of(both, table) == expected(0));
    } else {
        let shorter = answered_run(tree, (answers - 1) as nat);
        let longer = answered_run(tree, answers);
        lemma_cycle_sends_plan_in_order(tree, table, (answers - 1) as nat);
        assert(longer.drop_last() == shorter);
        assert(longer.last() == CycleEvent::Answered);
        assert(cycle_actions_of(longer, table) == expected(answers));
    }
}

/// A cycle on a snapshot that cannot be planned on asks for the snapshot and
/// ends without sending a command.
pub proof fn lemma_cycle_abandons_invalid_tree(tree: LayoutNode, table: Map<Seq<char>, Seq<char>>)
    requires
        commands_outcome(tree, table) is Err,
    ensures
        cycle_actions_of(answered_run(tree, 0), table) == seq![
            CycleActionView::Submit(RequestView::FetchTree),
            CycleActionView::Finish(CycleEnd::Abandoned(commands_outcome(tree, table)->Err_0)),
        ],
{
    let first = seq![CycleEvent::Triggered];
    let both = answered_run(tree, 0);
    assert(first.drop_last() == Seq::<CycleEvent>::empty());
    assert(first.last() == CycleEvent::Triggered);
    assert(cycle_state_after(Seq::<CycleEvent>::empty(), table) == CycleStateView::Ready);
    assert(cycle_actions_of(Seq::<CycleEvent>::empty(), table) == Seq::<CycleActionView>::empty());
    assert(cycle_state_after(first, table) == CycleStateView::AwaitingTree);
    assert(cycle_actions_of(first, table) == seq![
        CycleActionView::Submit(RequestView::FetchTree),
    ]);
    assert(both.drop_last() == first);
    assert(both.last() == CycleEvent::TreeFetched(tree));
}

/// A cycle that has ended does nothing more, and a request that fails ends
/// the cycle at once.
pub proof fn lemma_cycle_ends_for_good(
    state: CycleStateView,
    event: CycleEvent,
    table: Map<Seq<char>, Seq<char>>,
)
    ensures
        state is Finished ==> cycle_transition(state, event, table) == (
            state,
            CycleActionView::OutOfTurn,
        ),
        (state is AwaitingTree || state is Renaming) && event is SubmitFailed
            ==> cycle_transition(state, event, table) == (
            CycleStateView::Finished(CycleEnd::SubmitFailed),
            CycleActionView::Finish(CycleEnd::SubmitFailed),
        ),
{
}

fn send_or_finish(commands: Vec<String>, next: usize) -> (step: (CycleState, CycleAction))
    ensures
        (step.0@, step.1@) == proceed(contents(commands@), next as nat),
{
    if next < commands.len() {
        let command = commands[next].clone();
        (CycleState::Renaming { commands, current: next }, CycleAction::Submit(Request::Execute(command)))
    } else {
        (CycleState::Finished(CycleEnd::Completed), CycleAction::Finish(CycleEnd::Completed))
    }
}

/// Decides what a replan cycle does on `event` in `state`. Snapshots are
/// planned on with `lookup`.
pub fn cycle_step(state: CycleState, event: CycleEvent, lookup: &Lookup) -> (step: (
    CycleState,
    CycleAction,
))
    ensures
        (step.0@, step.1@) == cycle_transition(state@, event, lookup@),
{
    match state {
        CycleState::Ready => match event {
            CycleEvent::Triggered => (
                CycleState::AwaitingTree,
                CycleAction::Submit(Request::FetchTree),
            ),
            _ => (CycleState::Ready, CycleAction::OutOfTurn),
        },
        CycleState::AwaitingTree => match event {
            CycleEvent::TreeFetched(tree) => match get_workspace_rename_commands(&tree, lookup) {
                Ok(commands) => send_or_finish(commands, 0),
                Err(fault) => (
                    CycleState::Finished(CycleEnd::Abandoned(fault)),
                    CycleAction::Finish(CycleEnd::Abandoned(fault)),
                ),
            },
            CycleEvent::SubmitFailed => (
                CycleState::Finished(CycleEnd::SubmitFailed),
                CycleAction::Finish(CycleEnd::SubmitFailed),
            ),
            _ => (CycleState::AwaitingTree, CycleAction::OutOfTurn),
        },
        CycleState::Renaming { commands, current } => match event {
            CycleEvent::Answered => {
                if current < commands.len() {
                    send_or_finish(commands, current + 1)
                } else {
                    (
                        CycleState::Finished(CycleEnd::Completed),
                        CycleAction::Finish(CycleEnd::Completed),
                    )
                }
            },
            CycleEvent::SubmitFailed => (
                CycleState::Finished(CycleEnd::SubmitFailed),
                CycleAction::Finish(CycleEnd::SubmitFailed),
            ),
            _ => (CycleState::Renaming { commands, current }, CycleAction::OutOfTurn),
        },
        CycleState::Finished(end) => (CycleState::Finished(end), CycleAction::OutOfTurn),
    }
}

} // verus!
