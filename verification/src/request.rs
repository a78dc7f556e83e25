//! The request sequence of one call.
//!
//! The first envelope of a connection decides the shape of the call. A
//! payload makes it unary: the sequence yields that payload once and the
//! channel is never read again. The stream marker makes it a stream: the
//! sequence reads the channel until a receive fails, and then ends. Either
//! way the sequence can be consumed once only.
//!
//! The sequence is a state machine. Whoever drives it reports that the
//! handler asks for the next request (`Polled`) or what the channel gave
//! (`Received`), and carries out the action that comes back.

use crate::message::{CallKind, Envelope};
use vstd::prelude::*;

verus! {

/// The lazy request sequence that a handler consumes, by where it stands.
#[derive(Debug)]
pub enum RequestSource<P> {
    /// Unary call whose payload has not been handed out yet.
    Single(P),
    /// Streaming call, waiting for the handler to ask.
    Idle,
    /// Streaming call, waiting for the channel.
    Receiving,
    /// Nothing more will be yielded.
    Closed,
}

/// What the driver reports to a request sequence.
#[derive(Debug)]
pub enum SourceEvent<P> {
    /// The handler asks for the next request.
    Polled,
    /// The channel gave a payload, or the receive failed (`None`).
    Received(Option<P>),
}

/// What a request sequence asks of its driver.
#[derive(Debug)]
pub enum SourceAction<P> {
    /// Hand this request to the handler.
    Yield(P),
    /// Receive once from the channel and report what came.
    Receive,
    /// Tell the handler that the sequence has ended.
    End,
    /// The event was not asked for; it comes back untouched.
    Unexpected(SourceEvent<P>),
}

/// The state in which the request sequence of a call starts, by its first
/// envelope.
pub open spec fn source_start<P>(first: Envelope<P>) -> RequestSource<P> {
    match first {
        Envelope::Payload(p) => RequestSource::Single(p),
        Envelope::StreamMarker => RequestSource::Idle,
    }
}

/// One transition of a request sequence.
pub open spec fn source_step<P>(state: RequestSource<P>, event: SourceEvent<P>) -> (
    RequestSource<P>,
    SourceAction<P>,
) {
    match (state, event) {
        (RequestSource::Single(p), SourceEvent::Polled) => (
            RequestSource::Closed,
            SourceAction::Yield(p),
        ),
        (RequestSource::Idle, SourceEvent::Polled) => (
            RequestSource::Receiving,
            SourceAction::Receive,
        ),
        (RequestSource::Receiving, SourceEvent::Received(Some(p))) => (
            RequestSource::Idle,
            SourceAction::Yield(p),
        ),
        (RequestSource::Receiving, SourceEvent::Received(None)) => (
            RequestSource::Closed,
            SourceAction::End,
        ),
        (RequestSource::Closed, SourceEvent::Polled) => (RequestSource::Closed, SourceAction::End),
        (state, event) => (state, SourceAction::Unexpected(event)),
    }
}

impl<P> RequestSource<P> {
    /// Classifies a call by its first envelope.
    pub fn from_first(first: Envelope<P>) -> (source: Self)
        ensures
            source == source_start(first),
    {
        match first {
            Envelope::Payload(p) => RequestSource::Single(p),
            Envelope::StreamMarker => RequestSource::Idle,
        }
    }

    /// The shape of the call, as long as the sequence has not ended.
    pub fn kind(&self) -> (kind: Option<CallKind>)
        ensures
            kind == match *self {
                RequestSource::Single(_) => Some(CallKind::Unary),
                RequestSource::Idle => Some(CallKind::Streaming),
                RequestSource::Receiving => Some(CallKind::Streaming),
                RequestSource::Closed => None,
            },
    {
        match self {
            RequestSource::Single(_) => Some(CallKind::Unary),
            RequestSource::Idle => Some(CallKind::Streaming),
            RequestSource::Receiving => Some(CallKind::Streaming),
            RequestSource::Closed => None,
        }
    }

    /// Whether the sequence has ended.
    pub fn is_closed(&self) -> (closed: bool)
        ensures
            closed == (*self is Closed),
    {
        match self {
            RequestSource::Closed => true,
            _ => false,
        }
    }

    /// Takes one event and says what to do next.
    pub fn step(&mut self, event: SourceEvent<P>) -> (action: SourceAction<P>)
        ensures
            (*final(self), action) == source_step(*old(self), event),
    {
        let mut state = RequestSource::Closed;
        std::mem::swap(self, &mut state);
        let (next, action) = match (state, event) {
            (RequestSource::Single(p), SourceEvent::Polled) => (
                RequestSource::Closed,
                SourceAction::Yield(p),
            ),
            (RequestSource::Idle, SourceEvent::Polled) => (
                RequestSource::Receiving,
                SourceAction::Receive,
            ),
            (RequestSource::Receiving, SourceEvent::Received(Some(p))) => (
                RequestSource::Idle,
                SourceAction::Yield(p),
            ),
            (RequestSource::Receiving, SourceEvent::Received(None)) => (
                RequestSource::Closed,
                SourceAction::End,
            ),
            (RequestSource::Closed, SourceEvent::Polled) => (RequestSource::Closed, SourceAction::End),
            (state, event) => (state, SourceAction::Unexpected(event)),
        };
        *self = next;
        action
    }
}

/// The state reached and the actions taken when `events` arrive one after
/// the other, starting in `state`.
pub open spec fn source_run<P>(state: RequestSource<P>, events: Seq<SourceEvent<P>>) -> (
    RequestSource<P>,
    Seq<SourceAction<P>>,
)
    decreases events.len(),
{
    if events.len() == 0 {
        (state, Seq::empty())
    } else {
        let (before, actions) = source_run(state, events.drop_last());
        let (after, action) = source_step(before, events.last());
        (after, actions.push(action))
    }
}

/// The requests handed to the handler, in order.
pub open spec fn source_yields<P>(actions: Seq<SourceAction<P>>) -> Seq<P>
    decreases actions.len(),
{
    if actions.len() == 0 {
        Seq::empty()
    } else {
        let before = source_yields(actions.drop_last());
        match actions.last() {
            SourceAction::Yield(p) => before.push(p),
            _ => before,
        }
    }
}

/// How often the channel is read.
pub open spec fn source_receives<P>(actions: Seq<SourceAction<P>>) -> nat
    decreases actions.len(),
{
    if actions.len() == 0 {
        0
    } else {
        let before = source_receives(actions.drop_last());
        match actions.last() {
            SourceAction::Receive => before + 1,
            _ => before,
        }
    }
}

/// Whether every event was one that the sequence had asked for.
pub open spec fn source_followed<P>(actions: Seq<SourceAction<P>>) -> bool {
    forall|i: int| 0 <= i < actions.len() ==> !(#[trigger] actions[i] is Unexpected)
}

/// How often the handler asked for a request.
pub open spec fn source_polls<P>(events: Seq<SourceEvent<P>>) -> nat
    decreases events.len(),
{
    if events.len() == 0 {
        0
    } else {
        let before = source_polls(events.drop_last());
        match events.last() {
            SourceEvent::Polled => before + 1,
            _ => before,
        }
    }
}

/// The payloads that the channel gave, in order.
pub open spec fn source_arrivals<P>(events: Seq<SourceEvent<P>>) -> Seq<P>
    decreases events.len(),
{
    if events.len() == 0 {
        Seq::empty()
    } else {
        let before = source_arrivals(events.drop_last());
        match events.last() {
            SourceEvent::Received(Some(p)) => before.push(p),
            _ => before,
        }
    }
}

/// A run answers every event with one action.
pub proof fn lemma_source_run_len<P>(state: RequestSource<P>, events: Seq<SourceEvent<P>>)
    ensures
        source_run(state, events).1.len() == events.len(),
    decreases events.len(),
{
    if events.len() > 0 {
        lemma_source_run_len(state, events.drop_last());
    }
}

/// A unary call hands its one payload to the handler the first time the
/// handler asks, never anything else, and never reads the channel, whatever
/// the driver reports.
pub proof fn lemma_unary_source_yields_once<P>(payload: P, events: Seq<SourceEvent<P>>)
    ensures
        ({
            let (end, actions) = source_run(RequestSource::Single(payload), events);
            &&& source_receives(actions) == 0
            &&& source_polls(events) == 0 ==> end == RequestSource::Single(payload) && source_yields(
                actions,
            ) == Seq::<P>::empty()
            &&& source_polls(events) > 0 ==> end == RequestSource::<P>::Closed && source_yields(
                actions,
            ) == seq![payload]
        }),
    decreases events.len(),
{
    if events.len() > 0 {
        lemma_unary_source_yields_once(payload, events.drop_last());
        let (before, actions) = source_run(RequestSource::Single(payload), events.drop_last());
        let (after, action) = source_step(before, events.last());
        assert(actions.push(action).drop_last() == actions);
        if source_polls(events.drop_last()) == 0 && events.last() is Polled {
            assert(Seq::<P>::empty().push(payload) == seq![payload]);
        }
    }
}

/// A streaming call, driven as the sequence asks, hands the handler exactly
/// the payloads that the channel gave, in the order in which they came.
pub proof fn lemma_stream_source_yields_arrivals<P>(events: Seq<SourceEvent<P>>)
    requires
        source_followed(source_run(RequestSource::<P>::Idle, events).1),
    ensures
        source_yields(source_run(RequestSource::<P>::Idle, events).1) == source_arrivals(events),
        !(source_run(RequestSource::<P>::Idle, events).0 is Single),
    decreases events.len(),
{
    if events.len() > 0 {
        let (before, actions) = source_run(RequestSource::<P>::Idle, events.drop_last());
        let (after, action) = source_step(before, events.last());
        lemma_source_run_len(RequestSource::<P>::Idle, events.drop_last());
        assert(actions.push(action).drop_last() == actions);
        assert(source_followed(actions)) by {
            assert forall|i: int| 0 <= i < actions.len() implies !(#[trigger] actions[i]
                is Unexpected) by {
                assert(actions.push(action)[i] == actions[i]);
            }
        }
        lemma_stream_source_yields_arrivals(events.drop_last());
        assert(actions.push(action)[actions.len() as int] == action);
    }
}

/// Once a request sequence has ended it stays ended: it yields nothing more
/// and does not read the channel again.
pub proof fn lemma_closed_source_stays_closed<P>(events: Seq<SourceEvent<P>>)
    ensures
        ({
            let (end, actions) = source_run(RequestSource::<P>::Closed, events);
            &&& end == RequestSource::<P>::Closed
            &&& source_yields(actions) == Seq::<P>::empty()
            &&& source_receives(actions) == 0
        }),
    decreases events.len(),
{
    if events.len() > 0 {
        lemma_closed_source_stays_closed(events.drop_last());
        let (before, actions) = source_run(RequestSource::<P>::Closed, events.drop_last());
        let (after, action) = source_step(before, events.last());
        assert(actions.push(action).drop_last() == actions);
    }
}

} // verus!
