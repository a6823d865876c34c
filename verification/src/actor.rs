//! The decisions of the command actor.
//!
//! The actor is the one task that owns the connection on which requests are
//! sent to the window manager. Requests reach it through a queue; it serves
//! them one at a time, in the order in which it takes them from the queue.
//! The task itself waits on the queue and on the connection. What it does
//! with what arrives is decided here: `actor_step` takes the state of the
//! actor and the event that arrived and gives the next state and the action
//! to perform.

use vstd::prelude::*;

verus! {

/// What a caller asks of the actor.
#[derive(Debug, PartialEq, Eq)]
pub enum Request {
    /// Fetch a snapshot of the layout tree.
    FetchTree,
    /// Run the command with this text.
    Execute(String),
}

/// A request as plain text.
pub enum RequestView {
    FetchTree,
    Execute(Seq<char>),
}

impl View for Request {
    type V = RequestView;

    open spec fn view(&self) -> RequestView {
        match *self {
            Request::FetchTree => RequestView::FetchTree,
            Request::Execute(text) => RequestView::Execute(text@),
        }
    }
}

/// How far a failed round trip reaches.
#[derive(Clone, Copy, Debug, PartialEq, Eq, Structural)]
pub enum FaultKind {
    /// This one round trip failed; the connection can carry the next.
    Protocol,
    /// The connection is lost, and with it every round trip that follows.
    Connection,
}

/// A failed round trip on the connection to the window manager.
#[derive(Debug, PartialEq, Eq)]
pub struct IoFault {
    pub kind: FaultKind,
    pub message: String,
}

/// The error that the transport reported for a failed round trip.
#[derive(Clone, Copy, Debug, PartialEq, Eq, Structural)]
pub enum TransportError {
    /// The answer could not be read as what was asked for.
    InvalidData,
    /// The request could not be written as a message.
    InvalidInput,
    UnexpectedEof,
    BrokenPipe,
    ConnectionReset,
    ConnectionAborted,
    ConnectionRefused,
    NotConnected,
    /// No answer came in the time allowed.
    TimedOut,
    /// Any other error.
    Other,
}

/// How far an error of the transport reaches. A message that could not be
/// written or read leaves the connection standing. Every other error is
/// taken as the loss of the connection, a missed deadline too.
pub open spec fn reach(error: TransportError) -> FaultKind {
    if error == TransportError::InvalidData || error == TransportError::InvalidInput {
        FaultKind::Protocol
    } else {
        FaultKind::Connection
    }
}

/// Tells how far `error` reaches.
pub fn fault_kind(error: TransportError) -> (kind: FaultKind)
    ensures
        kind == reach(error),
{
    match error {
        TransportError::InvalidData | TransportError::InvalidInput => FaultKind::Protocol,
        _ => FaultKind::Connection,
    }
}

/// Why the actor serves no more requests.
#[derive(Debug, PartialEq, Eq)]
pub enum StopCause {
    /// Every handle through which requests are submitted is gone.
    QueueClosed,
    /// The connection was lost. The actor has one connection and does not
    /// reconnect.
    Faulted(IoFault),
}

/// The state of the actor between two events.
#[derive(Debug, PartialEq, Eq)]
pub enum ActorState {
    /// Waiting for the next request.
    Idle,
    /// Waiting for the window manager to answer the request that was taken
    /// last.
    InFlight,
    /// Serving no more requests.
    Stopped(StopCause),
}

/// How a round trip ended.
#[derive(Debug, PartialEq, Eq)]
pub enum CallOutcome {
    /// The window manager answered. An answer that reports a command as
    /// rejected is an answer all the same.
    Replied,
    /// The round trip failed.
    Failed(IoFault),
}

/// What can arrive at the actor.
#[derive(Debug, PartialEq, Eq)]
pub enum ActorEvent {
    /// A request was taken from the queue.
    Dequeued(Request),
    /// The queue is closed and empty.
    QueueClosed,
    /// The round trip for the request in flight ended.
    Returned(CallOutcome),
}

/// What the actor's task is to do next.
#[derive(Debug, PartialEq, Eq)]
pub enum ActorAction {
    /// Send the request to the window manager and wait for the answer.
    Call(Request),
    /// Hand the outcome of the round trip to the caller whose request was in
    /// flight.
    Deliver(CallOutcome),
    /// Answer the request with the cause for which the actor has stopped,
    /// without a round trip.
    Refuse(Request, StopCause),
    /// Leave the loop.
    Halt,
    /// The event does not fit the state. Nothing is to be done and the state
    /// is unchanged.
    OutOfTurn,
}

/// The next state and the action for each state and event.
///
/// From `Idle` a request goes in flight. From `InFlight` the end of the round
/// trip is delivered to the caller, whatever it is; the actor is idle again
/// after an answer or a fault of the protocol, and stopped after the loss of
/// the connection. Once stopped, the actor stays stopped and refuses every
/// request with the cause for which it stopped.
pub open spec fn transition(state: ActorState, event: ActorEvent) -> (ActorState, ActorAction) {
    match state {
        ActorState::Idle => match event {
            ActorEvent::Dequeued(request) => (ActorState::InFlight, ActorAction::Call(request)),
            ActorEvent::QueueClosed => (
                ActorState::Stopped(StopCause::QueueClosed),
                ActorAction::Halt,
            ),
            ActorEvent::Returned(_) => (state, ActorAction::OutOfTurn),
        },
        ActorState::InFlight => match event {
            ActorEvent::Returned(CallOutcome::Replied) => (
                ActorState::Idle,
                ActorAction::Deliver(CallOutcome::Replied),
            ),
            ActorEvent::Returned(CallOutcome::Failed(fault)) => (
                if fault.kind == FaultKind::Connection {
                    ActorState::Stopped(StopCause::Faulted(fault))
                } else {
                    ActorState::Idle
                },
                ActorAction::Deliver(CallOutcome::Failed(fault)),
            ),
            _ => (state, ActorAction::OutOfTurn),
        },
        ActorState::Stopped(cause) => match event {
            ActorEvent::Dequeued(request) => (state, ActorAction::Refuse(request, cause)),
            ActorEvent::QueueClosed => (state, ActorAction::Halt),
            ActorEvent::Returned(_) => (state, ActorAction::OutOfTurn),
        },
    }
}

/// The state of an actor that started idle and has seen `events`.
pub open spec fn state_after(events: Seq<ActorEvent>) -> ActorState
    decreases events.len(),
{
    if events.len() == 0 {
        ActorState::Idle
    } else {
        transition(state_after(events.drop_last()), events.last()).0
    }
}

/// The actions of an actor that started idle and has seen `events`, one for
/// each event.
pub open spec fn actions_of(events: Seq<ActorEvent>) -> Seq<ActorAction>
    decreases events.len(),
{
    if events.len() == 0 {
        Seq::empty()
    } else {
        actions_of(events.drop_last()).push(
            transition(state_after(events.drop_last()), events.last()).1,
        )
    }
}

/// How many round trips the actions start.
pub open spec fn calls(actions: Seq<ActorAction>) -> nat {
    actions.filter(|action: ActorAction| action is Call).len()
}

/// How many round trips the actions bring to their caller.
pub open spec fn deliveries(actions: Seq<ActorAction>) -> nat {
    actions.filter(|action: ActorAction| action is Deliver).len()
}

/// How many requests the actions refuse.
pub open spec fn refusals(actions: Seq<ActorAction>) -> nat {
    actions.filter(|action: ActorAction| action is Refuse).len()
}

/// The requests that arrive with the events, in their order.
pub open spec fn offered(events: Seq<ActorEvent>) -> Seq<Request> {
    events.filter_map(
        |event: ActorEvent|
            match event {
                ActorEvent::Dequeued(request) => Some(request),
                _ => None,
            },
    )
}

/// The requests that the actions take up, by a round trip or by a refusal,
/// in their order.
pub open spec fn taken_up(actions: Seq<ActorAction>) -> Seq<Request> {
    actions.filter_map(
        |action: ActorAction|
            match action {
                ActorAction::Call(request) => Some(request),
                ActorAction::Refuse(request, _) => Some(request),
                _ => None,
            },
    )
}

/// Every event came when the actor could take it: no request while another
/// was in flight, and no end of a round trip without one.
pub open spec fn in_turn(events: Seq<ActorEvent>) -> bool {
    forall|i: int| 0 <= i < events.len() ==> !((#[trigger] actions_of(events)[i]) is OutOfTurn)
}

/// There is one action for each event, and the actions on a longer run begin
/// with the actions on the shorter one.
pub proof fn lemma_actions_extend(events: Seq<ActorEvent>, n: int)
    requires
        0 <= n <= events.len(),
    ensures
        actions_of(events).len() == events.len(),
        actions_of(events.take(n)) == actions_of(events).take(n),
    decreases events.len(),
{
    if events.len() == 0 {
        assert(events.take(n) == events);
        assert(actions_of(events).take(n) == actions_of(events));
    } else if n == events.len() {
        lemma_actions_extend(events.drop_last(), n - 1);
        assert(events.take(n) == events);
        assert(actions_of(events).take(n) == actions_of(events));
    } else {
        lemma_actions_extend(events.drop_last(), n);
        assert(events.take(n) == events.drop_last().take(n));
        assert(actions_of(events).take(n) == actions_of(events.drop_last()).take(n));
    }
}

/// At most one round trip is open at any time: whatever events arrive, every
/// round trip that was started has been delivered, but for the one in flight
/// while the actor is in that state.
pub proof fn lemma_one_call_at_a_time(events: Seq<ActorEvent>)
    ensures
        calls(actions_of(events)) == deliveries(actions_of(events)) + (if state_after(
            events,
        ) is InFlight {
            1nat
        } else {
            0nat
        }),
    decreases events.len(),
{
    reveal(Seq::filter);
    if events.len() > 0 {
        let before = actions_of(events.drop_last());
        let action = transition(state_after(events.drop_last()), events.last()).1;
        lemma_one_call_at_a_time(events.drop_last());
        before.lemma_filter_push(action, |action: ActorAction| action is Call);
        before.lemma_filter_push(action, |action: ActorAction| action is Deliver);
    }
}

/// Requests are taken up in the order in which they arrive, each once:
/// where every event came in turn, the requests that were sent to the
/// window manager or refused are the requests that were taken from the
/// queue, in the same order.
pub proof fn lemma_requests_taken_up_in_order(events: Seq<ActorEvent>)
    requires
        in_turn(events),
    ensures
        taken_up(actions_of(events)) == offered(events),
    decreases events.len(),
{
    if events.len() > 0 {
        let shorter = events.drop_last();
        lemma_actions_extend(events, events.len() - 1);
        assert(shorter == events.take(events.len() - 1));
        assert forall|i: int| 0 <= i < shorter.len() implies !((#[trigger] actions_of(
            shorter,
        )[i]) is OutOfTurn) by {
            assert(actions_of(shorter)[i] == actions_of(events)[i]);
        }
        lemma_requests_taken_up_in_order(shorter);
        assert(!(actions_of(events)[events.len() - 1] is OutOfTurn));
        assert(actions_of(events).drop_last() == actions_of(shorter));
    }
}

/// Every request is answered exactly once: where every event came in turn,
/// there are as many answers, delivered or refused, as requests were taken
/// from the queue, but for the request in flight while the actor is in that
/// state.
pub proof fn lemma_each_request_answered_once(events: Seq<ActorEvent>)
    requires
        in_turn(events),
    ensures
        offered(events).len() == deliveries(actions_of(events)) + refusals(actions_of(events)) + (
        if state_after(events) is InFlight {
            1nat
        } else {
            0nat
        }),
{
    lemma_requests_taken_up_in_order(events);
    lemma_one_call_at_a_time(events);
    lemma_taken_up_by_call_or_refusal(actions_of(events));
}

/// A request is taken up by a round trip or by a refusal.
proof fn lemma_taken_up_by_call_or_refusal(actions: Seq<ActorAction>)
    ensures
        taken_up(actions).len() == calls(actions) + refusals(actions),
    decreases actions.len(),
{
    reveal(Seq::filter);
    if actions.len() > 0 {
        let before = actions.drop_last();
        lemma_taken_up_by_call_or_refusal(before);
        assert(actions == before.push(actions.last()));
        before.lemma_filter_push(actions.last(), |action: ActorAction| action is Call);
        before.lemma_filter_push(actions.last(), |action: ActorAction| action is Refuse);
    }
}

/// A stopped actor stays stopped for the same cause and starts no round
/// trip.
pub proof fn lemma_stopped_is_final(cause: StopCause, event: ActorEvent)
    ensures
        transition(ActorState::Stopped(cause), event).0 == ActorState::Stopped(cause),
        !(transition(ActorState::Stopped(cause), event).1 is Call),
        event is Dequeued ==> transition(ActorState::Stopped(cause), event).1
            == ActorAction::Refuse(event->Dequeued_0, cause),
{
}

fn same_fault(fault: &IoFault) -> (copy: IoFault)
    ensures
        copy == *fault,
{
    IoFault { kind: fault.kind, message: fault.message.clone() }
}

fn same_cause(cause: &StopCause) -> (copy: StopCause)
    ensures
        copy == *cause,
{
    match cause {
        StopCause::QueueClosed => StopCause::QueueClosed,
        StopCause::Faulted(fault) => StopCause::Faulted(same_fault(fault)),
    }
}

/// Decides what the actor does on `event` in `state`.
pub fn actor_step(state: ActorState, event: ActorEvent) -> (step: (ActorState, ActorAction))
    ensures
        step == transition(state, event),
{
    match state {
        ActorState::Idle => match event {
            ActorEvent::Dequeued(request) => (ActorState::InFlight, ActorAction::Call(request)),
            ActorEvent::QueueClosed => (
                ActorState::Stopped(StopCause::QueueClosed),
                ActorAction::Halt,
            ),
            ActorEvent::Returned(_) => (ActorState::Idle, ActorAction::OutOfTurn),
        },
        ActorState::InFlight => match event {
            ActorEvent::Returned(CallOutcome::Replied) => (
                ActorState::Idle,
                ActorAction::Deliver(CallOutcome::Replied),
            ),
            ActorEvent::Returned(CallOutcome::Failed(fault)) => {
                let next = match fault.kind {
                    FaultKind::Connection => ActorState::Stopped(
                        StopCause::Faulted(same_fault(&fault)),
                    ),
                    FaultKind::Protocol => ActorState::Idle,
                };
                (next, ActorAction::Deliver(CallOutcome::Failed(fault)))
            },
            _ => (ActorState::InFlight, ActorAction::OutOfTurn),
        },
        ActorState::Stopped(cause) => match event {
            ActorEvent::Dequeued(request) => {
                let answer = same_cause(&cause);
                (ActorState::Stopped(cause), ActorAction::Refuse(request, answer))
            },
            ActorEvent::QueueClosed => (ActorState::Stopped(cause), ActorAction::Halt),
            ActorEvent::Returned(_) => (ActorState::Stopped(cause), ActorAction::OutOfTurn),
        },
    }
}

} // verus!
