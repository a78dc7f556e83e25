//! A serving session as a whole: the dispatch loop and the calls in flight.
//!
//! Each call that the loop hands off runs as a task of its own. This module
//! puts the loop and the tasks side by side, as one state, and states what
//! holds of them together: calls do not touch each other, the loop does not
//! touch a call once it is handed off, and shutdown stops acceptance only.
//! It also follows single calls from their connection to their end.

use crate::dispatch::{
    lemma_loop_run_first, loop_run, loop_step, route, AcceptOutcome, Call, LoopAction, LoopEvent,
    Phase, StopReason,
};
use crate::message::Envelope;
use crate::path::path_text;
use crate::request::{
    lemma_stream_source_yields_arrivals, lemma_unary_source_yields_once, source_arrivals,
    source_followed, source_polls, source_receives, source_run, source_start, source_yields,
    RequestSource, SourceEvent,
};
use crate::response::{
    healthy_events, lemma_healthy_call_delivers_all, task_run, task_sent, task_step,
    ResponseTask, TaskAction, TaskEnd, TaskEvent,
};
use tonic::codegen::http::uri::PathAndQuery;
use vstd::prelude::*;

verus! {

/// The state of a session: the phase of the loop, and the response task of
/// every call handed off so far, in the order of the handoffs.
pub struct Session<A, P> {
    pub phase: Phase<A, P>,
    pub calls: Seq<ResponseTask>,
}

/// Something that happens in a session.
pub enum SessionEvent<A, P, R> {
    /// An event of the dispatch loop.
    Loop(LoopEvent<A, P>),
    /// An event of the call with this number.
    Call(int, TaskEvent<R>),
}

/// The task that an action of the loop hands a call off to, if it hands one
/// off.
pub open spec fn spawned<A, P>(action: LoopAction<A, P>) -> Option<ResponseTask> {
    match action {
        LoopAction::Invoke { task, .. } => Some(task),
        LoopAction::ReplyNotFound { task, .. } => Some(task),
        _ => None,
    }
}

/// One step of a session. An event of the loop moves the loop, and adds a
/// call where the loop hands one off. An event of a call moves that call.
pub open spec fn session_step<A, P, R>(
    session: Session<A, P>,
    slots: Map<Seq<char>, usize>,
    event: SessionEvent<A, P, R>,
) -> Session<A, P> {
    match event {
        SessionEvent::Loop(e) => {
            let (phase, action) = loop_step(session.phase, slots, e);
            match spawned(action) {
                Some(task) => Session { phase, calls: session.calls.push(task) },
                None => Session { phase, calls: session.calls },
            }
        },
        SessionEvent::Call(i, e) => {
            if 0 <= i < session.calls.len() {
                Session {
                    phase: session.phase,
                    calls: session.calls.update(i, task_step(session.calls[i], e).0),
                }
            } else {
                session
            }
        },
    }
}

/// The session reached when `events` happen one after the other.
pub open spec fn session_run<A, P, R>(
    session: Session<A, P>,
    slots: Map<Seq<char>, usize>,
    events: Seq<SessionEvent<A, P, R>>,
) -> Session<A, P>
    decreases events.len(),
{
    if events.len() == 0 {
        session
    } else {
        session_step(session_run(session, slots, events.drop_last()), slots, events.last())
    }
}

/// The events of one call, as events of the session.
pub open spec fn call_events<A, P, R>(call: int, events: Seq<TaskEvent<R>>) -> Seq<
    SessionEvent<A, P, R>,
> {
    Seq::new(events.len(), |k: int| SessionEvent::Call(call, events[k]))
}

/// An event of one call moves that call and nothing else: the loop and
/// every other call stay as they are.
pub proof fn lemma_call_step_is_local<A, P, R>(
    session: Session<A, P>,
    slots: Map<Seq<char>, usize>,
    call: int,
    event: TaskEvent<R>,
)
    ensures
        ({
            let after = session_step(session, slots, SessionEvent::<A, P, R>::Call(call, event));
            &&& after.phase == session.phase
            &&& after.calls.len() == session.calls.len()
            &&& forall|other: int|
                0 <= other < session.calls.len() && other != call ==> after.calls[other]
                    == session.calls[other]
        }),
{
}

/// Two different calls proceed independently: their events can happen in
/// either order, with the same outcome.
pub proof fn lemma_calls_commute<A, P, R>(
    session: Session<A, P>,
    slots: Map<Seq<char>, usize>,
    one: int,
    one_event: TaskEvent<R>,
    other: int,
    other_event: TaskEvent<R>,
)
    requires
        one != other,
    ensures
        session_step(
            session_step(session, slots, SessionEvent::<A, P, R>::Call(one, one_event)),
            slots,
            SessionEvent::<A, P, R>::Call(other, other_event),
        ) == session_step(
            session_step(session, slots, SessionEvent::<A, P, R>::Call(other, other_event)),
            slots,
            SessionEvent::<A, P, R>::Call(one, one_event),
        ),
{
    let first = session_step(
        session_step(session, slots, SessionEvent::<A, P, R>::Call(one, one_event)),
        slots,
        SessionEvent::<A, P, R>::Call(other, other_event),
    );
    let second = session_step(
        session_step(session, slots, SessionEvent::<A, P, R>::Call(other, other_event)),
        slots,
        SessionEvent::<A, P, R>::Call(one, one_event),
    );
    assert(first.calls =~= second.calls);
}

/// The loop leaves every call alone that it has handed off: a step of the
/// loop changes none of them, and adds at most one call.
pub proof fn lemma_loop_step_leaves_calls_alone<A, P, R>(
    session: Session<A, P>,
    slots: Map<Seq<char>, usize>,
    event: LoopEvent<A, P>,
)
    ensures
        ({
            let after = session_step(session, slots, SessionEvent::<A, P, R>::Loop(event));
            &&& after.phase == loop_step(session.phase, slots, event).0
            &&& session.calls.len() <= after.calls.len() <= session.calls.len() + 1
            &&& forall|call: int|
                0 <= call < session.calls.len() ==> after.calls[call] == session.calls[call]
        }),
{
}

/// A call in flight and the loop proceed independently: an event of the
/// call and an event of the loop can happen in either order, with the same
/// outcome.
pub proof fn lemma_call_and_loop_commute<A, P, R>(
    session: Session<A, P>,
    slots: Map<Seq<char>, usize>,
    call: int,
    call_event: TaskEvent<R>,
    loop_event: LoopEvent<A, P>,
)
    requires
        0 <= call < session.calls.len(),
    ensures
        session_step(
            session_step(session, slots, SessionEvent::<A, P, R>::Call(call, call_event)),
            slots,
            SessionEvent::<A, P, R>::Loop(loop_event),
        ) == session_step(
            session_step(session, slots, SessionEvent::<A, P, R>::Loop(loop_event)),
            slots,
            SessionEvent::<A, P, R>::Call(call, call_event),
        ),
{
    let first = session_step(
        session_step(session, slots, SessionEvent::<A, P, R>::Call(call, call_event)),
        slots,
        SessionEvent::<A, P, R>::Loop(loop_event),
    );
    let second = session_step(
        session_step(session, slots, SessionEvent::<A, P, R>::Loop(loop_event)),
        slots,
        SessionEvent::<A, P, R>::Call(call, call_event),
    );
    assert(first.calls =~= second.calls);
}

/// Shutdown cancels acceptance only: when the signal resolves the loop
/// stops, and every call in flight stays exactly where it was.
pub proof fn lemma_shutdown_leaves_calls_in_flight<A, P, R>(
    session: Session<A, P>,
    slots: Map<Seq<char>, usize>,
    accept: Option<AcceptOutcome<A>>,
)
    requires
        session.phase is Accepting,
    ensures
        session_step(
            session,
            slots,
            SessionEvent::<A, P, R>::Loop(LoopEvent::Raced { shutdown: true, accept }),
        ) == (Session { phase: Phase::<A, P>::Stopped(StopReason::Shutdown), calls: session.calls }),
{
}

/// A session in which only one call moves: that call runs as it would
/// alone, and the loop and the other calls stay as they are.
pub proof fn lemma_session_runs_call<A, P, R>(
    session: Session<A, P>,
    slots: Map<Seq<char>, usize>,
    call: int,
    events: Seq<TaskEvent<R>>,
)
    requires
        0 <= call < session.calls.len(),
    ensures
        session_run(session, slots, call_events::<A, P, R>(call, events)) == (Session {
            phase: session.phase,
            calls: session.calls.update(call, task_run(session.calls[call], events).0),
        }),
    decreases events.len(),
{
    let all = call_events::<A, P, R>(call, events);
    if events.len() == 0 {
        assert(session.calls.update(call, session.calls[call]) =~= session.calls);
    } else {
        lemma_session_runs_call::<A, P, R>(session, slots, call, events.drop_last());
        assert(all.drop_last() == call_events::<A, P, R>(call, events.drop_last()));
        assert(all.last() == SessionEvent::<A, P, R>::Call(call, events.last()));
        let before = task_run(session.calls[call], events.drop_last()).0;
        let after = task_step(before, events.last()).0;
        assert(session.calls.update(call, before).update(call, after) =~= session.calls.update(
            call,
            after,
        ));
    }
}

/// A call in flight completes whether or not the loop still accepts: where
/// its handler yields `items` and its peer takes them all, the call ends
/// completed, in a stopped session as in a running one, and nothing else in
/// the session moves.
pub proof fn lemma_call_in_flight_completes<A, P, R>(
    session: Session<A, P>,
    slots: Map<Seq<char>, usize>,
    call: int,
    items: Seq<R>,
)
    requires
        0 <= call < session.calls.len(),
        session.calls[call] == ResponseTask::Draining,
    ensures
        session_run(session, slots, call_events::<A, P, R>(call, healthy_events(items))) == (
        Session {
            phase: session.phase,
            calls: session.calls.update(call, ResponseTask::Finished(TaskEnd::Completed)),
        }),
{
    lemma_session_runs_call::<A, P, R>(session, slots, call, healthy_events(items));
    lemma_healthy_call_delivers_all(items);
}

/// The events of one connection that is served: it is accepted, its first
/// message arrives, and the handler is ready.
pub open spec fn served_connection<A, P>(
    peer: A,
    path: PathAndQuery,
    first: Envelope<P>,
) -> Seq<LoopEvent<A, P>> {
    seq![
        LoopEvent::Raced { shutdown: false, accept: Some(AcceptOutcome::Connected(peer)) },
        LoopEvent::FirstMessage(Some((path, first))),
        LoopEvent::Ready,
    ]
}

/// A call to a registered service is handed to the handler that its path
/// names, with the peer, the path and the requests as they arrived, and the
/// loop accepts again at once, while the call is still in flight.
pub proof fn lemma_routed_call_is_handed_off<A, P>(
    slots: Map<Seq<char>, usize>,
    peer: A,
    path: PathAndQuery,
    first: Envelope<P>,
)
    requires
        route(slots, path_text(path)) is Some,
    ensures
        ({
            let slot = route(slots, path_text(path))->0;
            let call = Call { peer, path, requests: source_start(first) };
            loop_run(Phase::<A, P>::Accepting, slots, served_connection(peer, path, first)) == (
                Phase::<A, P>::Accepting,
                seq![
                    LoopAction::ReceiveFirst,
                    LoopAction::AwaitReady { slot },
                    LoopAction::Invoke { slot, call, task: ResponseTask::Draining },
                ],
            )
        }),
{
    let slot = route(slots, path_text(path))->0;
    let call = Call { peer, path, requests: source_start(first) };
    let e0 = LoopEvent::<A, P>::Raced {
        shutdown: false,
        accept: Some(AcceptOutcome::Connected(peer)),
    };
    let e1 = LoopEvent::<A, P>::FirstMessage(Some((path, first)));
    let e2 = LoopEvent::<A, P>::Ready;
    let none = Seq::<LoopEvent<A, P>>::empty();
    lemma_loop_run_first(Phase::<A, P>::Accepting, slots, e0, seq![e1, e2]);
    lemma_loop_run_first(Phase::<A, P>::Classifying { peer }, slots, e1, seq![e2]);
    lemma_loop_run_first(Phase::<A, P>::AwaitingReady { slot, call }, slots, e2, none);
    assert(seq![e0] + seq![e1, e2] == served_connection(peer, path, first));
    assert(seq![e1] + seq![e2] == seq![e1, e2]);
    assert(seq![e2] + none == seq![e2]);
    let a0 = LoopAction::<A, P>::ReceiveFirst;
    let a1 = LoopAction::<A, P>::AwaitReady { slot };
    let a2 = LoopAction::<A, P>::Invoke { slot, call, task: ResponseTask::Draining };
    assert(seq![a2] + Seq::<LoopAction<A, P>>::empty() == seq![a2]);
    assert(seq![a1] + seq![a2] == seq![a1, a2]);
    assert(seq![a0] + seq![a1, a2] == seq![a0, a1, a2]);
}

/// A call to a path that names no registered service is not fatal and
/// reaches no handler: it is handed to the not-found reply, and the loop
/// accepts again.
pub proof fn lemma_unrouted_call_is_refused<A, P>(
    slots: Map<Seq<char>, usize>,
    peer: A,
    path: PathAndQuery,
    first: Envelope<P>,
)
    requires
        route(slots, path_text(path)) is None,
    ensures
        ({
            let call = Call { peer, path, requests: source_start(first) };
            let events = seq![
                LoopEvent::Raced { shutdown: false, accept: Some(AcceptOutcome::Connected(peer)) },
                LoopEvent::FirstMessage(Some((path, first))),
            ];
            loop_run(Phase::<A, P>::Accepting, slots, events) == (
                Phase::<A, P>::Accepting,
                seq![
                    LoopAction::ReceiveFirst,
                    LoopAction::ReplyNotFound { call, task: ResponseTask::Draining },
                ],
            )
        }),
{
    let call = Call { peer, path, requests: source_start(first) };
    let e0 = LoopEvent::<A, P>::Raced {
        shutdown: false,
        accept: Some(AcceptOutcome::Connected(peer)),
    };
    let e1 = LoopEvent::<A, P>::FirstMessage(Some((path, first)));
    let none = Seq::<LoopEvent<A, P>>::empty();
    lemma_loop_run_first(Phase::<A, P>::Accepting, slots, e0, seq![e1]);
    lemma_loop_run_first(Phase::<A, P>::Classifying { peer }, slots, e1, none);
    assert(seq![e0] + seq![e1] == seq![e0, e1]);
    assert(seq![e1] + none == seq![e1]);
    let a0 = LoopAction::<A, P>::ReceiveFirst;
    let a1 = LoopAction::<A, P>::ReplyNotFound { call, task: ResponseTask::Draining };
    assert(seq![a1] + Seq::<LoopAction<A, P>>::empty() == seq![a1]);
    assert(seq![a0] + seq![a1] == seq![a0, a1]);
}

/// A unary call from end to end. Its handler is handed the one payload of
/// the first message, once, however often it asks, and the channel is never
/// read for it. Where the handler answers with one item and the peer takes
/// it, the peer gets exactly that item, and the task then completes and
/// releases the connection.
pub proof fn lemma_unary_call_gets_one_response<A, P, R>(
    slots: Map<Seq<char>, usize>,
    peer: A,
    path: PathAndQuery,
    payload: P,
    asks: Seq<SourceEvent<P>>,
    response: R,
)
    requires
        route(slots, path_text(path)) is Some,
        source_polls(asks) > 0,
    ensures
        ({
            let (end, actions) = loop_run(
                Phase::<A, P>::Accepting,
                slots,
                served_connection(peer, path, Envelope::Payload(payload)),
            );
            &&& end == Phase::<A, P>::Accepting
            &&& actions.len() == 3
            &&& actions[2] matches LoopAction::Invoke { call, task, .. } && ({
                let (source, handed) = source_run(call.requests, asks);
                let (finished, sent) = task_run(task, healthy_events(seq![response]));
                &&& call.peer == peer
                &&& call.path == path
                &&& source_yields(handed) == seq![payload]
                &&& source_receives(handed) == 0
                &&& source == RequestSource::<P>::Closed
                &&& task_sent(sent) == seq![response]
                &&& sent.last() == TaskAction::<R>::Finish(TaskEnd::Completed)
                &&& finished == ResponseTask::Finished(TaskEnd::Completed)
            })
        }),
{
    lemma_routed_call_is_handed_off(slots, peer, path, Envelope::Payload(payload));
    lemma_unary_source_yields_once(payload, asks);
    lemma_healthy_call_delivers_all(seq![response]);
}

/// A streaming call from end to end. Its handler is handed the payloads that
/// arrive on the channel after the stream marker, as many as arrive and in
/// their order. Where the handler answers with `responses` and the peer
/// takes them all, the peer gets exactly `responses`, as many and in the
/// same order, and the task then completes.
pub proof fn lemma_streaming_call_keeps_order<A, P, R>(
    slots: Map<Seq<char>, usize>,
    peer: A,
    path: PathAndQuery,
    asks: Seq<SourceEvent<P>>,
    responses: Seq<R>,
)
    requires
        route(slots, path_text(path)) is Some,
        source_followed(source_run(RequestSource::<P>::Idle, asks).1),
    ensures
        ({
            let (end, actions) = loop_run(
                Phase::<A, P>::Accepting,
                slots,
                served_connection(peer, path, Envelope::<P>::StreamMarker),
            );
            &&& end == Phase::<A, P>::Accepting
            &&& actions.len() == 3
            &&& actions[2] matches LoopAction::Invoke { call, task, .. } && ({
                let (source, handed) = source_run(call.requests, asks);
                let (finished, sent) = task_run(task, healthy_events(responses));
                &&& call.peer == peer
                &&& call.path == path
                &&& source_yields(handed) == source_arrivals(asks)
                &&& task_sent(sent) == responses
                &&& finished == ResponseTask::Finished(TaskEnd::Completed)
            })
        }),
{
    lemma_routed_call_is_handed_off(slots, peer, path, Envelope::<P>::StreamMarker);
    lemma_stream_source_yields_arrivals(asks);
    lemma_healthy_call_delivers_all(responses);
}

} // verus!
