//! The response task of one call.
//!
//! Every dispatched call gets a task of its own that drains the response
//! sequence and sends each item back over the connection, one at a time and
//! in the order in which the handler produced them. The task ends when the
//! sequence ends, or when a send fails because the peer is gone. Neither
//! touches the dispatch loop or any other call.
//!
//! The task is a state machine. Whoever drives it reports what the response
//! sequence yielded (`Yielded`) or how a send went (`Sent`), and carries out
//! the action that comes back.

use vstd::prelude::*;

verus! {

/// How a response task ended.
#[derive(Clone, Copy, Debug, PartialEq, Eq, Structural)]
pub enum TaskEnd {
    /// The response sequence ended and every item was sent.
    Completed,
    /// A send failed; the items after it were never sent.
    Disconnected,
}

/// The response task of a call, by where it stands.
#[derive(Clone, Copy, Debug, PartialEq, Eq, Structural)]
pub enum ResponseTask {
    /// Waiting for the next item of the response sequence.
    Draining,
    /// Waiting for the send of an item to finish.
    Sending,
    /// Done; the connection is released.
    Finished(TaskEnd),
}

/// What the driver reports to a response task.
#[derive(Debug)]
pub enum TaskEvent<R> {
    /// The response sequence yielded an item, or ended (`None`).
    Yielded(Option<R>),
    /// The send went through (`true`) or failed (`false`).
    Sent(bool),
}

/// What a response task asks of its driver.
#[derive(Debug)]
pub enum TaskAction<R> {
    /// Take the next item from the response sequence and report it.
    Pull,
    /// Send this item to the peer and report how it went.
    Send(R),
    /// Release the connection; the task is over.
    Finish(TaskEnd),
    /// The event was not asked for; it comes back untouched.
    Unexpected(TaskEvent<R>),
}

/// One transition of a response task.
pub open spec fn task_step<R>(task: ResponseTask, event: TaskEvent<R>) -> (
    ResponseTask,
    TaskAction<R>,
) {
    match (task, event) {
        (ResponseTask::Draining, TaskEvent::Yielded(Some(item))) => (
            ResponseTask::Sending,
            TaskAction::Send(item),
        ),
        (ResponseTask::Draining, TaskEvent::Yielded(None)) => (
            ResponseTask::Finished(TaskEnd::Completed),
            TaskAction::Finish(TaskEnd::Completed),
        ),
        (ResponseTask::Sending, TaskEvent::Sent(true)) => (
            ResponseTask::Draining,
            TaskAction::Pull,
        ),
        (ResponseTask::Sending, TaskEvent::Sent(false)) => (
            ResponseTask::Finished(TaskEnd::Disconnected),
            TaskAction::Finish(TaskEnd::Disconnected),
        ),
        (task, event) => (task, TaskAction::Unexpected(event)),
    }
}

impl ResponseTask {
    /// The task of a call that has just been handed off.
    pub fn new() -> (task: Self)
        ensures
            task == ResponseTask::Draining,
    {
        ResponseTask::Draining
    }

    /// Whether the task is over.
    pub fn is_finished(&self) -> (finished: bool)
        ensures
            finished == (*self is Finished),
    {
        match self {
            ResponseTask::Finished(_) => true,
            _ => false,
        }
    }

    /// Takes one event and says what to do next.
    pub fn step<R>(&mut self, event: TaskEvent<R>) -> (action: TaskAction<R>)
        ensures
            (*final(self), action) == task_step(*old(self), event),
    {
        let (next, action) = match (*self, event) {
            (ResponseTask::Draining, TaskEvent::Yielded(Some(item))) => (
                ResponseTask::Sending,
                TaskAction::Send(item),
            ),
            (ResponseTask::Draining, TaskEvent::Yielded(None)) => (
                ResponseTask::Finished(TaskEnd::Completed),
                TaskAction::Finish(TaskEnd::Completed),
            ),
            (ResponseTask::Sending, TaskEvent::Sent(true)) => (
                ResponseTask::Draining,
                TaskAction::Pull,
            ),
            (ResponseTask::Sending, TaskEvent::Sent(false)) => (
                ResponseTask::Finished(TaskEnd::Disconnected),
                TaskAction::Finish(TaskEnd::Disconnected),
            ),
            (task, event) => (task, TaskAction::Unexpected(event)),
        };
        *self = next;
        action
    }
}

/// The state reached and the actions taken when `events` arrive one after
/// the other, starting in `task`.
pub open spec fn task_run<R>(task: ResponseTask, events: Seq<TaskEvent<R>>) -> (
    ResponseTask,
    Seq<TaskAction<R>>,
)
    decreases events.len(),
{
    if events.len() == 0 {
        (task, Seq::empty())
    } else {
        let (before, actions) = task_run(task, events.drop_last());
        let (after, action) = task_step(before, events.last());
        (after, actions.push(action))
    }
}

/// The items handed to the peer's channel, in order.
pub open spec fn task_sent<R>(actions: Seq<TaskAction<R>>) -> Seq<R>
    decreases actions.len(),
{
    if actions.len() == 0 {
        Seq::empty()
    } else {
        let before = task_sent(actions.drop_last());
        match actions.last() {
            TaskAction::Send(item) => before.push(item),
            _ => before,
        }
    }
}

/// The items that the response sequence yielded, in order.
pub open spec fn task_yielded<R>(events: Seq<TaskEvent<R>>) -> Seq<R>
    decreases events.len(),
{
    if events.len() == 0 {
        Seq::empty()
    } else {
        let before = task_yielded(events.drop_last());
        match events.last() {
            TaskEvent::Yielded(Some(item)) => before.push(item),
            _ => before,
        }
    }
}

/// How many sends went through.
pub open spec fn task_delivered<R>(events: Seq<TaskEvent<R>>) -> nat
    decreases events.len(),
{
    if events.len() == 0 {
        0
    } else {
        let before = task_delivered(events.drop_last());
        match events.last() {
            TaskEvent::Sent(true) => before + 1,
            _ => before,
        }
    }
}

/// Whether every event was one that the task had asked for.
pub open spec fn task_followed<R>(actions: Seq<TaskAction<R>>) -> bool {
    forall|i: int| 0 <= i < actions.len() ==> !(#[trigger] actions[i] is Unexpected)
}

/// The events of the rounds in which a handler yields `items` and the peer
/// takes each of them: for every item its yield, then the good news of its
/// send.
pub open spec fn healthy_rounds<R>(items: Seq<R>) -> Seq<TaskEvent<R>>
    decreases items.len(),
{
    if items.len() == 0 {
        Seq::empty()
    } else {
        healthy_rounds(items.drop_last()).push(TaskEvent::Yielded(Some(items.last()))).push(
            TaskEvent::Sent(true),
        )
    }
}

/// The events of a call whose handler yields `items` and then ends, and
/// whose peer takes every item.
pub open spec fn healthy_events<R>(items: Seq<R>) -> Seq<TaskEvent<R>> {
    healthy_rounds(items).push(TaskEvent::Yielded(None))
}

/// A run over a longer trace starts with the run over each shorter one.
pub proof fn lemma_task_followed_prefix<R>(task: ResponseTask, events: Seq<TaskEvent<R>>)
    requires
        events.len() > 0,
        task_followed(task_run(task, events).1),
    ensures
        task_followed(task_run(task, events.drop_last()).1),
{
    let (before, actions) = task_run(task, events.drop_last());
    let (after, action) = task_step(before, events.last());
    assert forall|i: int| 0 <= i < actions.len() implies !(#[trigger] actions[i]
        is Unexpected) by {
        assert(actions.push(action)[i] == actions[i]);
    }
}

/// A response task, driven as it asks, hands the peer's channel exactly the
/// items that the handler yielded: as many, and in the same order. While it
/// drains, every one of them has gone through; while it sends, and after a
/// failed send, all but the last have.
pub proof fn lemma_task_forwards_in_order<R>(events: Seq<TaskEvent<R>>)
    requires
        task_followed(task_run(ResponseTask::Draining, events).1),
    ensures
        ({
            let (end, actions) = task_run(ResponseTask::Draining, events);
            &&& task_sent(actions) == task_yielded(events)
            &&& match end {
                ResponseTask::Draining => task_delivered(events) == task_yielded(events).len(),
                ResponseTask::Sending => task_delivered(events) + 1 == task_yielded(events).len(),
                ResponseTask::Finished(TaskEnd::Completed) => task_delivered(events)
                    == task_yielded(events).len(),
                ResponseTask::Finished(TaskEnd::Disconnected) => task_delivered(events) + 1
                    == task_yielded(events).len(),
            }
        }),
    decreases events.len(),
{
    if events.len() > 0 {
        let (before, actions) = task_run(ResponseTask::Draining, events.drop_last());
        let (after, action) = task_step(before, events.last());
        lemma_task_followed_prefix(ResponseTask::Draining, events);
        lemma_task_forwards_in_order(events.drop_last());
        assert(actions.push(action).drop_last() == actions);
        assert(actions.push(action)[actions.len() as int] == action);
    }
}

/// A finished task stays finished: whatever is reported to it, it sends
/// nothing more.
pub proof fn lemma_finished_task_stays_finished<R>(end: TaskEnd, events: Seq<TaskEvent<R>>)
    ensures
        task_run(ResponseTask::Finished(end), events).0 == ResponseTask::Finished(end),
        task_sent(task_run(ResponseTask::Finished(end), events).1) == Seq::<R>::empty(),
    decreases events.len(),
{
    if events.len() > 0 {
        lemma_finished_task_stays_finished(end, events.drop_last());
        let (before, actions) = task_run(ResponseTask::Finished(end), events.drop_last());
        let (after, action) = task_step(before, events.last());
        assert(actions.push(action).drop_last() == actions);
    }
}

/// What one more event adds to a run.
pub proof fn lemma_task_run_push<R>(
    task: ResponseTask,
    events: Seq<TaskEvent<R>>,
    event: TaskEvent<R>,
)
    ensures
        ({
            let (before, actions) = task_run(task, events);
            let (after, action) = task_step(before, event);
            &&& task_run(task, events.push(event)) == (after, actions.push(action))
            &&& task_yielded(events.push(event)) == match event {
                TaskEvent::Yielded(Some(item)) => task_yielded(events).push(item),
                _ => task_yielded(events),
            }
            &&& task_sent(actions.push(action)) == match action {
                TaskAction::Send(item) => task_sent(actions).push(item),
                _ => task_sent(actions),
            }
            &&& task_followed(actions.push(action)) == (task_followed(actions) && !(action
                is Unexpected))
        }),
{
    let (before, actions) = task_run(task, events);
    let (after, action) = task_step(before, event);
    assert(events.push(event).drop_last() == events);
    assert(actions.push(action).drop_last() == actions);
    if task_followed(actions) && !(action is Unexpected) {
        assert forall|i: int| 0 <= i < actions.push(action).len() implies !(
        #[trigger] actions.push(action)[i] is Unexpected) by {
            if i < actions.len() {
                assert(actions.push(action)[i] == actions[i]);
            }
        }
    }
    if task_followed(actions.push(action)) {
        assert(actions.push(action)[actions.len() as int] == action);
        assert forall|i: int| 0 <= i < actions.len() implies !(#[trigger] actions[i]
            is Unexpected) by {
            assert(actions.push(action)[i] == actions[i]);
        }
    }
}

/// After the healthy rounds of `items` the task is draining again and has
/// sent exactly `items`.
pub proof fn lemma_healthy_rounds<R>(items: Seq<R>)
    ensures
        ({
            let (end, actions) = task_run(ResponseTask::Draining, healthy_rounds(items));
            &&& end == ResponseTask::Draining
            &&& task_followed(actions)
            &&& task_sent(actions) == items
            &&& task_yielded(healthy_rounds(items)) == items
        }),
    decreases items.len(),
{
    if items.len() > 0 {
        let shorter = items.drop_last();
        lemma_healthy_rounds(shorter);
        let yielded = TaskEvent::Yielded(Some(items.last()));
        lemma_task_run_push(ResponseTask::Draining, healthy_rounds(shorter), yielded);
        lemma_task_run_push(
            ResponseTask::Draining,
            healthy_rounds(shorter).push(yielded),
            TaskEvent::Sent(true),
        );
        assert(shorter.push(items.last()) == items);
    }
}

/// Where the handler yields `items` and the peer takes them all, the task
/// sends exactly `items`, in order, and completes.
pub proof fn lemma_healthy_call_delivers_all<R>(items: Seq<R>)
    ensures
        ({
            let (end, actions) = task_run(ResponseTask::Draining, healthy_events(items));
            &&& end == ResponseTask::Finished(TaskEnd::Completed)
            &&& task_followed(actions)
            &&& task_sent(actions) == items
            &&& task_yielded(healthy_events(items)) == items
            &&& actions.last() == TaskAction::<R>::Finish(TaskEnd::Completed)
        }),
{
    lemma_healthy_rounds(items);
    lemma_task_run_push(ResponseTask::Draining, healthy_rounds(items), TaskEvent::Yielded(None));
}

/// A failed send cuts the call short and ends its task: where the peer takes
/// `taken` items and the send of the next one fails, the task has handed the
/// channel those items and the one that failed, in order, and nothing after
/// it, and has ended as disconnected.
pub proof fn lemma_disconnect_cuts_short<R>(items: Seq<R>, taken: int)
    requires
        0 <= taken < items.len(),
    ensures
        ({
            let events = healthy_rounds(items.take(taken)).push(
                TaskEvent::Yielded(Some(items[taken])),
            ).push(TaskEvent::Sent(false));
            let (end, actions) = task_run(ResponseTask::Draining, events);
            &&& end == ResponseTask::Finished(TaskEnd::Disconnected)
            &&& task_followed(actions)
            &&& task_sent(actions) == items.take(taken + 1)
            &&& task_delivered(events) == taken
        }),
{
    let rounds = healthy_rounds(items.take(taken));
    let yielded = TaskEvent::Yielded(Some(items[taken]));
    let events = rounds.push(yielded).push(TaskEvent::Sent(false));
    lemma_healthy_rounds(items.take(taken));
    lemma_task_run_push(ResponseTask::Draining, rounds, yielded);
    lemma_task_run_push(ResponseTask::Draining, rounds.push(yielded), TaskEvent::Sent(false));
    assert(items.take(taken).push(items[taken]) == items.take(taken + 1));
    lemma_task_forwards_in_order(events);
    assert(task_yielded(events) == items.take(taken + 1));
}

/// A call whose handler yields one item, and whose peer takes it, gets
/// exactly that item, after which the task completes and releases the
/// connection.
pub proof fn lemma_single_response_then_close<R>(item: R)
    ensures
        ({
            let (end, actions) = task_run(ResponseTask::Draining, healthy_events(seq![item]));
            &&& end == ResponseTask::Finished(TaskEnd::Completed)
            &&& task_sent(actions) == seq![item]
            &&& task_sent(actions).len() == 1
            &&& actions.last() == TaskAction::<R>::Finish(TaskEnd::Completed)
        }),
{
    lemma_healthy_call_delivers_all(seq![item]);
}

} // verus!
