use madsim_tonic::response::{ResponseTask, TaskAction, TaskEnd, TaskEvent};
use madsim_tonic::status::{not_found_reply, CallResult, Code, Status};

#[test]
fn new_task_drains() {
    let task = ResponseTask::new();
    assert_eq!(task, ResponseTask::Draining);
    assert!(!task.is_finished());
}

#[test]
fn task_sends_each_item_in_order() {
    let mut task = ResponseTask::new();
    let mut sent = Vec::new();
    for item in ["a", "b", "c"] {
        match task.step(TaskEvent::Yielded(Some(item))) {
            TaskAction::Send(out) => sent.push(out),
            _ => panic!("expected a send"),
        }
        assert_eq!(task, ResponseTask::Sending);
        assert!(matches!(task.step(TaskEvent::<&str>::Sent(true)), TaskAction::Pull));
        assert_eq!(task, ResponseTask::Draining);
    }
    let last = task.step(TaskEvent::<&str>::Yielded(None));
    assert!(matches!(last, TaskAction::Finish(TaskEnd::Completed)));
    assert_eq!(task, ResponseTask::Finished(TaskEnd::Completed));
    assert!(task.is_finished());
    assert_eq!(sent, vec!["a", "b", "c"]);
}

#[test]
fn empty_response_sequence_completes_at_once() {
    let mut task = ResponseTask::new();
    let action = task.step(TaskEvent::<u8>::Yielded(None));
    assert!(matches!(action, TaskAction::Finish(TaskEnd::Completed)));
    assert_eq!(task, ResponseTask::Finished(TaskEnd::Completed));
}

#[test]
fn failed_send_ends_the_task() {
    let mut task = ResponseTask::new();
    assert!(matches!(task.step(TaskEvent::Yielded(Some(1u8))), TaskAction::Send(1)));
    let action = task.step(TaskEvent::<u8>::Sent(false));
    assert!(matches!(action, TaskAction::Finish(TaskEnd::Disconnected)));
    assert_eq!(task, ResponseTask::Finished(TaskEnd::Disconnected));
    assert!(task.is_finished());
}

#[test]
fn finished_task_sends_nothing_more() {
    for end in [TaskEnd::Completed, TaskEnd::Disconnected] {
        let mut task = ResponseTask::Finished(end);
        let back = task.step(TaskEvent::Yielded(Some(2u8)));
        assert!(matches!(back, TaskAction::Unexpected(TaskEvent::Yielded(Some(2)))));
        let back = task.step(TaskEvent::<u8>::Sent(true));
        assert!(matches!(back, TaskAction::Unexpected(TaskEvent::Sent(true))));
        let back = task.step(TaskEvent::<u8>::Yielded(None));
        assert!(matches!(back, TaskAction::Unexpected(TaskEvent::Yielded(None))));
        assert_eq!(task, ResponseTask::Finished(end));
    }
}

#[test]
fn task_hands_back_what_it_did_not_ask_for() {
    let mut task = ResponseTask::new();
    let back = task.step(TaskEvent::<u8>::Sent(true));
    assert!(matches!(back, TaskAction::Unexpected(TaskEvent::Sent(true))));
    assert_eq!(task, ResponseTask::Draining);
    assert!(matches!(task.step(TaskEvent::Yielded(Some(1u8))), TaskAction::Send(1)));
    let back = task.step(TaskEvent::Yielded(Some(2u8)));
    assert!(matches!(back, TaskAction::Unexpected(TaskEvent::Yielded(Some(2)))));
    assert_eq!(task, ResponseTask::Sending);
}

#[test]
fn handler_errors_are_items_like_any_other() {
    let mut task = ResponseTask::new();
    let items: Vec<CallResult<u8>> =
        vec![Ok(1), Err(Status::new(Code::Internal, "boom")), Ok(2)];
    let mut sent: Vec<CallResult<u8>> = Vec::new();
    for item in items {
        match task.step(TaskEvent::Yielded(Some(item))) {
            TaskAction::Send(out) => sent.push(out),
            _ => panic!("expected a send"),
        }
        assert!(matches!(task.step(TaskEvent::<CallResult<u8>>::Sent(true)), TaskAction::Pull));
    }
    assert_eq!(sent.len(), 3);
    assert!(matches!(sent[0], Ok(1)));
    match &sent[1] {
        Err(status) => {
            assert_eq!(status.code(), Code::Internal);
            assert_eq!(status.message(), "boom");
        }
        Ok(_) => panic!("expected the status error"),
    }
    assert!(matches!(sent[2], Ok(2)));
    assert_eq!(task, ResponseTask::Draining);
}

#[test]
fn not_found_reply_is_one_status_error() {
    let reply = not_found_reply::<u8>();
    assert_eq!(reply.len(), 1);
    match &reply[0] {
        Err(status) => {
            assert_eq!(status.code(), Code::NotFound);
            assert_eq!(status.message(), "service not found");
        }
        Ok(_) => panic!("expected the status error"),
    }
}

#[test]
fn status_keeps_code_and_message() {
    let status = Status::new(Code::Unavailable, "try later");
    assert_eq!(status.code(), Code::Unavailable);
    assert_eq!(status.message(), "try later");
    assert_eq!(status.code, Code::Unavailable);
    assert_eq!(status.message, "try later".to_string());
    let missing = Status::not_found();
    assert_eq!(missing.code(), Code::NotFound);
    assert_eq!(missing.message(), "service not found");
    assert_ne!(Code::NotFound, Code::Success);
}
