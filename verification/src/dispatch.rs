//! The dispatch loop.
//!
//! The loop races the acceptance of a connection against the shutdown
//! signal, classifies each accepted call by its first message, resolves the
//! handler by the service name of the path, waits until that handler is
//! ready, and hands the call off to a response task of its own. It never
//! waits for a call to finish.
//!
//! The loop is a state machine. Whoever drives it does the waiting and the
//! I/O, reports each outcome as an event, and carries out the action that
//! comes back.

use crate::message::Envelope;
use crate::path::{
    lemma_service_name_of_route, path_text, route_text, service_of, spec_service_name,
};
use crate::registry::Registry;
use crate::request::{source_start, RequestSource};
use crate::response::ResponseTask;
use tonic::codegen::http::uri::PathAndQuery;
use vstd::prelude::*;

verus! {

/// What the accept side of the race brought.
#[derive(Debug)]
pub enum AcceptOutcome<A> {
    /// A connection from this peer.
    Connected(A),
    /// The transport failed.
    Failed,
}

/// Why the loop stopped.
#[derive(Clone, Copy, Debug, PartialEq, Eq, Structural)]
pub enum StopReason {
    /// The shutdown signal resolved: serving ends well.
    Shutdown,
    /// The transport failed: serving ends with that error.
    TransportFailure,
}

/// One call, as it is handed to its handler.
#[derive(Debug)]
pub struct Call<A, P> {
    /// Who called.
    pub peer: A,
    /// The full path identifier of the call.
    pub path: PathAndQuery,
    /// The requests of the call.
    pub requests: RequestSource<P>,
}

/// Where the dispatch loop stands.
#[derive(Debug)]
pub enum Phase<A, P> {
    /// Racing acceptance against the shutdown signal.
    Accepting,
    /// A connection was accepted; its first message is awaited.
    Classifying { peer: A },
    /// The handler in `slot` was resolved; its readiness is awaited.
    AwaitingReady { slot: usize, call: Call<A, P> },
    /// No further connection is accepted.
    Stopped(StopReason),
}

/// What the driver reports to the dispatch loop.
#[derive(Debug)]
pub enum LoopEvent<A, P> {
    /// How the race ended: whether the shutdown signal has resolved, and
    /// what acceptance brought, if it brought anything.
    Raced { shutdown: bool, accept: Option<AcceptOutcome<A>> },
    /// The first message of the accepted connection, or `None` where the
    /// receive failed.
    FirstMessage(Option<(PathAndQuery, Envelope<P>)>),
    /// The awaited handler is ready.
    Ready,
}

/// What the dispatch loop asks of its driver.
#[derive(Debug)]
pub enum LoopAction<A, P> {
    /// Nothing was ready: race again.
    Race,
    /// Receive the first message of the accepted connection.
    ReceiveFirst,
    /// Drop the connection without a word to the peer, note it, race again.
    Discard,
    /// Wait until the handler in `slot` is ready.
    AwaitReady { slot: usize },
    /// Invoke the handler in `slot` with `call`, let `task` stream the
    /// responses back on its own, race again.
    Invoke { slot: usize, call: Call<A, P>, task: ResponseTask },
    /// No handler serves `call`: let `task` send the not-found status on its
    /// own, race again.
    ReplyNotFound { call: Call<A, P>, task: ResponseTask },
    /// Stop serving.
    Stop(StopReason),
    /// The event was not asked for; it comes back untouched.
    Unexpected(LoopEvent<A, P>),
}

/// The slot that a path routes to: that of the handler registered under the
/// path's service name.
pub open spec fn route(slots: Map<Seq<char>, usize>, path: Seq<char>) -> Option<usize> {
    match spec_service_name(path) {
        Some(name) => if slots.contains_key(name) {
            Some(slots[name])
        } else {
            None
        },
        None => None,
    }
}

/// One transition of the dispatch loop over a registry with these `slots`.
pub open spec fn loop_step<A, P>(
    phase: Phase<A, P>,
    slots: Map<Seq<char>, usize>,
    event: LoopEvent<A, P>,
) -> (Phase<A, P>, LoopAction<A, P>) {
    match (phase, event) {
        (Phase::Accepting, LoopEvent::Raced { shutdown, accept }) => {
            if shutdown {
                (Phase::Stopped(StopReason::Shutdown), LoopAction::Stop(StopReason::Shutdown))
            } else {
                match accept {
                    Some(AcceptOutcome::Connected(peer)) => (
                        Phase::Classifying { peer },
                        LoopAction::ReceiveFirst,
                    ),
                    Some(AcceptOutcome::Failed) => (
                        Phase::Stopped(StopReason::TransportFailure),
                        LoopAction::Stop(StopReason::TransportFailure),
                    ),
                    None => (Phase::Accepting, LoopAction::Race),
                }
            }
        },
        (Phase::Classifying { peer }, LoopEvent::FirstMessage(None)) => (
            Phase::Accepting,
            LoopAction::Discard,
        ),
        (Phase::Classifying { peer }, LoopEvent::FirstMessage(Some((path, first)))) => {
            let call = Call { peer, path, requests: source_start(first) };
            match route(slots, path_text(path)) {
                Some(slot) => (Phase::AwaitingReady { slot, call }, LoopAction::AwaitReady { slot }),
                None => (
                    Phase::Accepting,
                    LoopAction::ReplyNotFound { call, task: ResponseTask::Draining },
                ),
            }
        },
        (Phase::AwaitingReady { slot, call }, LoopEvent::Ready) => (
            Phase::Accepting,
            LoopAction::Invoke { slot, call, task: ResponseTask::Draining },
        ),
        (phase, event) => (phase, LoopAction::Unexpected(event)),
    }
}

/// The dispatch loop of one serving session. It owns the registry for as
/// long as the session lasts.
pub struct Dispatcher<H, A, P> {
    registry: Registry<H>,
    phase: Phase<A, P>,
}

impl<H, A, P> Dispatcher<H, A, P> {
    /// The registry that the loop dispatches to.
    pub closed spec fn registry(&self) -> Registry<H> {
        self.registry
    }

    /// Where the loop stands.
    pub closed spec fn phase(&self) -> Phase<A, P> {
        self.phase
    }

    /// A handler that is awaited exists.
    #[verifier::type_invariant]
    pub closed spec fn wf(&self) -> bool {
        self.phase matches Phase::AwaitingReady { slot, .. } ==> slot
            < self.registry.handlers().len()
    }

    /// A loop over `registry` that is about to accept its first connection.
    pub fn new(registry: Registry<H>) -> (dispatcher: Self)
        ensures
            dispatcher.registry() == registry,
            dispatcher.phase() == Phase::<A, P>::Accepting,
    {
        Dispatcher { registry, phase: Phase::Accepting }
    }

    /// Whether the loop has stopped, and why.
    pub fn stopped(&self) -> (reason: Option<StopReason>)
        ensures
            reason == match self.phase() {
                Phase::Stopped(why) => Some(why),
                _ => None,
            },
    {
        match &self.phase {
            Phase::Stopped(why) => Some(*why),
            _ => None,
        }
    }

    /// Takes one event and says what to do next. The registry stays as it
    /// is.
    pub fn step(&mut self, event: LoopEvent<A, P>) -> (action: LoopAction<A, P>)
        ensures
            final(self).registry() == old(self).registry(),
            (final(self).phase(), action) == loop_step(
                old(self).phase(),
                old(self).registry().slots(),
                event,
            ),
            action matches LoopAction::AwaitReady { slot }
                ==> slot < old(self).registry().handlers().len(),
            action matches LoopAction::Invoke { slot, .. }
                ==> slot < old(self).registry().handlers().len(),
    {
        proof {
            use_type_invariant(&*self);
        }
        let mut phase = Phase::Accepting;
        std::mem::swap(&mut self.phase, &mut phase);
        let (next, action) = match (phase, event) {
            (Phase::Accepting, LoopEvent::Raced { shutdown, accept }) => {
                if shutdown {
                    (Phase::Stopped(StopReason::Shutdown), LoopAction::Stop(StopReason::Shutdown))
                } else {
                    match accept {
                        Some(AcceptOutcome::Connected(peer)) => (
                            Phase::Classifying { peer },
                            LoopAction::ReceiveFirst,
                        ),
                        Some(AcceptOutcome::Failed) => (
                            Phase::Stopped(StopReason::TransportFailure),
                            LoopAction::Stop(StopReason::TransportFailure),
                        ),
                        None => (Phase::Accepting, LoopAction::Race),
                    }
                }
            },
            (Phase::Classifying { peer }, LoopEvent::FirstMessage(None)) => (
                Phase::Accepting,
                LoopAction::Discard,
            ),
            (Phase::Classifying { peer }, LoopEvent::FirstMessage(Some((path, first)))) => {
                let slot = match service_of(&path) {
                    Some(name) => self.registry.resolve(name),
                    None => None,
                };
                let call = Call { peer, path, requests: RequestSource::from_first(first) };
                match slot {
                    Some(slot) => (
                        Phase::AwaitingReady { slot, call },
                        LoopAction::AwaitReady { slot },
                    ),
                    None => (
                        Phase::Accepting,
                        LoopAction::ReplyNotFound { call, task: ResponseTask::new() },
                    ),
                }
            },
            (Phase::AwaitingReady { slot, call }, LoopEvent::Ready) => (
                Phase::Accepting,
                LoopAction::Invoke { slot, call, task: ResponseTask::new() },
            ),
            (phase, event) => (phase, LoopAction::Unexpected(event)),
        };
        self.phase = next;
        action
    }

    /// The handler in `slot`, for the length of one dispatch. The loop
    /// itself stays where it is.
    pub fn handler_mut(&mut self, slot: usize) -> (found: Option<&mut H>)
        ensures
            final(self).phase() == old(self).phase(),
            final(self).registry().slots() == old(self).registry().slots(),
            found is Some <==> slot < old(self).registry().handlers().len(),
            found matches Some(h) ==> *h == old(self).registry().handlers()[slot as int]
                && final(self).registry().handlers()
                == old(self).registry().handlers().update(slot as int, *final(h)),
            found is None ==> final(self).registry().handlers()
                == old(self).registry().handlers(),
    {
        proof {
            use_type_invariant(&*self);
        }
        self.registry.handler_mut(slot)
    }
}

/// The phase reached and the actions taken when `events` arrive one after
/// the other, starting in `phase`.
pub open spec fn loop_run<A, P>(
    phase: Phase<A, P>,
    slots: Map<Seq<char>, usize>,
    events: Seq<LoopEvent<A, P>>,
) -> (Phase<A, P>, Seq<LoopAction<A, P>>)
    decreases events.len(),
{
    if events.len() == 0 {
        (phase, Seq::empty())
    } else {
        let (before, actions) = loop_run(phase, slots, events.drop_last());
        let (after, action) = loop_step(before, slots, events.last());
        (after, actions.push(action))
    }
}

/// Whether a handoff goes where the path of its call routes: an awaited or
/// invoked handler is the one that the path names, and the not-found reply
/// goes to calls whose path names none.
pub open spec fn action_follows_route<A, P>(
    action: LoopAction<A, P>,
    slots: Map<Seq<char>, usize>,
) -> bool {
    match action {
        LoopAction::Invoke { slot, call, task } => route(slots, path_text(call.path)) == Some(slot)
            && task == ResponseTask::Draining,
        LoopAction::ReplyNotFound { call, task } => route(slots, path_text(call.path)) is None
            && task == ResponseTask::Draining,
        _ => true,
    }
}

/// Whether the handler that a phase waits for is the one that the path of
/// the pending call names.
pub open spec fn phase_follows_route<A, P>(
    phase: Phase<A, P>,
    slots: Map<Seq<char>, usize>,
) -> bool {
    phase matches Phase::AwaitingReady { slot, call } ==> route(slots, path_text(call.path))
        == Some(slot)
}

/// A run answers every event with one action.
pub proof fn lemma_loop_run_len<A, P>(
    phase: Phase<A, P>,
    slots: Map<Seq<char>, usize>,
    events: Seq<LoopEvent<A, P>>,
)
    ensures
        loop_run(phase, slots, events).1.len() == events.len(),
    decreases events.len(),
{
    if events.len() > 0 {
        lemma_loop_run_len(phase, slots, events.drop_last());
    }
}

/// Routing reads the service name and nothing else: the paths of two
/// methods of one service route to the same slot, the one registered under
/// the service's name.
pub proof fn lemma_route_reads_service_only(
    slots: Map<Seq<char>, usize>,
    service: Seq<char>,
    method_a: Seq<char>,
    method_b: Seq<char>,
)
    requires
        forall|i: int| 0 <= i < service.len() ==> service[i] != '/',
    ensures
        route(slots, route_text(service, method_a)) == route(
            slots,
            route_text(service, method_b),
        ),
        route(slots, route_text(service, method_a)) == (if slots.contains_key(service) {
            Some(slots[service])
        } else {
            None
        }),
{
    lemma_service_name_of_route(service, method_a);
    lemma_service_name_of_route(service, method_b);
}

/// A call to any method of a registered service routes to the handler that
/// was registered under the service's name.
pub proof fn lemma_registered_service_is_routed<H>(
    registry: Registry<H>,
    service: Seq<char>,
    method: Seq<char>,
)
    requires
        registry.wf(),
        registry@.contains_key(service),
        forall|i: int| 0 <= i < service.len() ==> service[i] != '/',
    ensures
        route(registry.slots(), route_text(service, method)) matches Some(slot) && slot
            < registry.handlers().len() && registry.handlers()[slot as int] == registry@[service],
{
    registry.lemma_view();
    lemma_service_name_of_route(service, method);
    assert(registry.slots().dom().contains(service));
}

/// Whatever the driver reports, starting from a loop that accepts: every
/// call that is handed off goes to the handler that its path names, and to
/// the not-found reply exactly where its path names none.
pub proof fn lemma_handoffs_follow_routes<A, P>(
    slots: Map<Seq<char>, usize>,
    events: Seq<LoopEvent<A, P>>,
)
    ensures
        phase_follows_route(loop_run(Phase::<A, P>::Accepting, slots, events).0, slots),
        forall|i: int|
            0 <= i < events.len() ==> action_follows_route(
                #[trigger] loop_run(Phase::<A, P>::Accepting, slots, events).1[i],
                slots,
            ),
    decreases events.len(),
{
    if events.len() > 0 {
        lemma_handoffs_follow_routes::<A, P>(slots, events.drop_last());
        lemma_loop_run_len(Phase::<A, P>::Accepting, slots, events.drop_last());
        let (before, actions) = loop_run(Phase::<A, P>::Accepting, slots, events.drop_last());
        let (after, action) = loop_step(before, slots, events.last());
        assert forall|i: int| 0 <= i < events.len() implies action_follows_route(
            #[trigger] actions.push(action)[i],
            slots,
        ) by {
            if i < actions.len() {
                assert(actions.push(action)[i] == actions[i]);
            }
        }
    }
}

/// A stopped loop stays stopped: whatever is reported to it, it accepts no
/// connection and reaches no handler; every event comes back untouched.
pub proof fn lemma_stopped_is_final<A, P>(
    reason: StopReason,
    slots: Map<Seq<char>, usize>,
    events: Seq<LoopEvent<A, P>>,
)
    ensures
        loop_run(Phase::<A, P>::Stopped(reason), slots, events).0 == Phase::<A, P>::Stopped(
            reason,
        ),
        forall|i: int|
            0 <= i < events.len() ==> #[trigger] loop_run(
                Phase::<A, P>::Stopped(reason),
                slots,
                events,
            ).1[i] == LoopAction::Unexpected(events[i]),
    decreases events.len(),
{
    if events.len() > 0 {
        lemma_stopped_is_final::<A, P>(reason, slots, events.drop_last());
        lemma_loop_run_len(Phase::<A, P>::Stopped(reason), slots, events.drop_last());
        let (before, actions) = loop_run(
            Phase::<A, P>::Stopped(reason),
            slots,
            events.drop_last(),
        );
        let (after, action) = loop_step(before, slots, events.last());
        assert forall|i: int| 0 <= i < events.len() implies #[trigger] actions.push(action)[i]
            == LoopAction::Unexpected(events[i]) by {
            if i < actions.len() {
                assert(actions.push(action)[i] == actions[i]);
                assert(events.drop_last()[i] == events[i]);
            }
        }
    }
}

/// What a run does after its first event: it goes on from where the first
/// step led.
pub proof fn lemma_loop_run_first<A, P>(
    phase: Phase<A, P>,
    slots: Map<Seq<char>, usize>,
    first: LoopEvent<A, P>,
    rest: Seq<LoopEvent<A, P>>,
)
    ensures
        ({
            let (next, action) = loop_step(phase, slots, first);
            let (end, actions) = loop_run(next, slots, rest);
            loop_run(phase, slots, seq![first] + rest) == (end, seq![action] + actions)
        }),
    decreases rest.len(),
{
    let (next, action) = loop_step(phase, slots, first);
    let all = seq![first] + rest;
    if rest.len() == 0 {
        assert(all.drop_last() == Seq::<LoopEvent<A, P>>::empty());
        assert(all.last() == first);
        assert(loop_run(phase, slots, all.drop_last()) == (
            phase,
            Seq::<LoopAction<A, P>>::empty(),
        ));
        assert(loop_run(next, slots, rest) == (next, Seq::<LoopAction<A, P>>::empty()));
        assert(Seq::<LoopAction<A, P>>::empty().push(action) == seq![action] + Seq::<
            LoopAction<A, P>,
        >::empty());
    } else {
        lemma_loop_run_first(phase, slots, first, rest.drop_last());
        assert(all.drop_last() == seq![first] + rest.drop_last());
        assert(all.last() == rest.last());
        let (before, actions) = loop_run(next, slots, rest.drop_last());
        let (after, last) = loop_step(before, slots, rest.last());
        assert(loop_run(next, slots, rest) == (after, actions.push(last)));
        assert(loop_run(phase, slots, all.drop_last()) == (before, seq![action] + actions));
        assert(loop_run(phase, slots, all) == (after, (seq![action] + actions).push(last)));
        assert((seq![action] + actions).push(last) == seq![action] + actions.push(last));
    }
}

/// Shutdown wins the race, also against a connection that is ready at the
/// same moment, and it is final: the loop stops, and whatever is reported
/// afterwards, no connection is accepted and no handler is reached.
pub proof fn lemma_no_dispatch_after_shutdown<A, P>(
    slots: Map<Seq<char>, usize>,
    accept: Option<AcceptOutcome<A>>,
    events: Seq<LoopEvent<A, P>>,
)
    ensures
        ({
            let signal = LoopEvent::Raced { shutdown: true, accept };
            let (end, actions) = loop_run(Phase::<A, P>::Accepting, slots, seq![signal] + events);
            &&& end == Phase::<A, P>::Stopped(StopReason::Shutdown)
            &&& actions.len() == events.len() + 1
            &&& actions[0] == LoopAction::<A, P>::Stop(StopReason::Shutdown)
            &&& forall|i: int|
                0 <= i < events.len() ==> #[trigger] actions[i + 1] == LoopAction::Unexpected(
                    events[i],
                )
        }),
{
    let signal = LoopEvent::Raced { shutdown: true, accept };
    lemma_loop_run_first(Phase::<A, P>::Accepting, slots, signal, events);
    lemma_stopped_is_final::<A, P>(StopReason::Shutdown, slots, events);
    lemma_loop_run_len(Phase::<A, P>::Stopped(StopReason::Shutdown), slots, events);
    let (end, rest) = loop_run(Phase::<A, P>::Stopped(StopReason::Shutdown), slots, events);
    let actions = seq![LoopAction::<A, P>::Stop(StopReason::Shutdown)] + rest;
    assert forall|i: int| 0 <= i < events.len() implies #[trigger] actions[i + 1]
        == LoopAction::Unexpected(events[i]) by {
        assert(actions[i + 1] == rest[i]);
    }
}

/// How many connections the loop has accepted.
pub open spec fn connections_accepted<A, P>(actions: Seq<LoopAction<A, P>>) -> nat
    decreases actions.len(),
{
    if actions.len() == 0 {
        0
    } else {
        let before = connections_accepted(actions.drop_last());
        match actions.last() {
            LoopAction::ReceiveFirst => before + 1,
            _ => before,
        }
    }
}

/// How many connections the loop is done with: dropped on a failed first
/// receive, handed to a handler, or handed to the not-found reply.
pub open spec fn connections_settled<A, P>(actions: Seq<LoopAction<A, P>>) -> nat
    decreases actions.len(),
{
    if actions.len() == 0 {
        0
    } else {
        let before = connections_settled(actions.drop_last());
        match actions.last() {
            LoopAction::Discard => before + 1,
            LoopAction::Invoke { .. } => before + 1,
            LoopAction::ReplyNotFound { .. } => before + 1,
            _ => before,
        }
    }
}

/// One connection carries one call, and one connection is worked on at a
/// time: whatever the driver reports, every accepted connection is settled
/// exactly once, and the next is accepted only after that.
pub proof fn lemma_one_call_per_connection<A, P>(
    slots: Map<Seq<char>, usize>,
    events: Seq<LoopEvent<A, P>>,
)
    ensures
        ({
            let (end, actions) = loop_run(Phase::<A, P>::Accepting, slots, events);
            match end {
                Phase::Accepting => connections_accepted(actions) == connections_settled(actions),
                Phase::Stopped(_) => connections_accepted(actions) == connections_settled(actions),
                Phase::Classifying { .. } => connections_accepted(actions) == connections_settled(
                    actions,
                ) + 1,
                Phase::AwaitingReady { .. } => connections_accepted(actions)
                    == connections_settled(actions) + 1,
            }
        }),
    decreases events.len(),
{
    if events.len() > 0 {
        lemma_one_call_per_connection::<A, P>(slots, events.drop_last());
        let (before, actions) = loop_run(Phase::<A, P>::Accepting, slots, events.drop_last());
        let (after, action) = loop_step(before, slots, events.last());
        assert(actions.push(action).drop_last() == actions);
    }
}

/// Whether the loop has asked, at some point of `actions`, to wait for the
/// handler in `slot`.
pub open spec fn has_awaited<A, P>(actions: Seq<LoopAction<A, P>>, slot: usize) -> bool {
    exists|j: int| 0 <= j < actions.len() && #[trigger] actions[j] == LoopAction::<
        A,
        P,
    >::AwaitReady { slot }
}

/// No call is submitted to a handler that has not passed its readiness
/// check: whatever the driver reports, a handler is invoked only on the news
/// that it is ready, and only after the loop asked to wait for that very
/// handler.
pub proof fn lemma_invoke_follows_readiness<A, P>(
    slots: Map<Seq<char>, usize>,
    events: Seq<LoopEvent<A, P>>,
)
    ensures
        ({
            let (end, actions) = loop_run(Phase::<A, P>::Accepting, slots, events);
            &&& end matches Phase::AwaitingReady { slot, .. } ==> has_awaited(actions, slot)
            &&& forall|i: int|
                0 <= i < events.len() ==> (#[trigger] actions[i] matches LoopAction::Invoke {
                    slot,
                    ..
                } ==> events[i] is Ready && has_awaited(actions.take(i), slot))
        }),
    decreases events.len(),
{
    if events.len() > 0 {
        lemma_invoke_follows_readiness::<A, P>(slots, events.drop_last());
        lemma_loop_run_len(Phase::<A, P>::Accepting, slots, events.drop_last());
        let (before, actions) = loop_run(Phase::<A, P>::Accepting, slots, events.drop_last());
        let (after, action) = loop_step(before, slots, events.last());
        let all = actions.push(action);
        let last = actions.len() as int;
        assert(all[last] == action);
        match after {
            Phase::AwaitingReady { slot, .. } => {
                match before {
                    Phase::AwaitingReady { slot: waiting, .. } => {
                        let j = choose|j: int|
                            0 <= j < actions.len() && #[trigger] actions[j] == LoopAction::<
                                A,
                                P,
                            >::AwaitReady { slot: waiting };
                        assert(all[j] == actions[j]);
                    },
                    _ => {},
                }
                assert(has_awaited(all, slot));
            },
            _ => {},
        }
        assert forall|i: int| 0 <= i < events.len() implies (#[trigger] all[i]
            matches LoopAction::Invoke { slot, .. } ==> events[i] is Ready && has_awaited(
            all.take(i),
            slot,
        )) by {
            if i < last {
                assert(all[i] == actions[i]);
                assert(events[i] == events.drop_last()[i]);
                assert(all.take(i) == actions.take(i));
            } else {
                assert(all.take(i) == actions);
            }
        }
    }
}

} // verus!
