use madsim_tonic::dispatch::{AcceptOutcome, Dispatcher, LoopAction, LoopEvent, StopReason};
use madsim_tonic::message::{CallKind, Envelope};
use madsim_tonic::registry::Registry;
use madsim_tonic::response::ResponseTask;
use tonic::codegen::http::uri::PathAndQuery;

type Loop = Dispatcher<&'static str, u32, String>;

fn two_services() -> Loop {
    let mut registry = Registry::new();
    registry.register("echo", "echo handler");
    registry.register("time", "time handler");
    Dispatcher::new(registry)
}

fn connected(peer: u32) -> LoopEvent<u32, String> {
    LoopEvent::Raced { shutdown: false, accept: Some(AcceptOutcome::Connected(peer)) }
}

fn first(path: &'static str, envelope: Envelope<String>) -> LoopEvent<u32, String> {
    LoopEvent::FirstMessage(Some((PathAndQuery::from_static(path), envelope)))
}

#[test]
fn new_loop_accepts() {
    let mut dispatcher = two_services();
    assert_eq!(dispatcher.stopped(), None);
    assert!(matches!(dispatcher.step(connected(1)), LoopAction::ReceiveFirst));
    assert_eq!(dispatcher.stopped(), None);
}

#[test]
fn idle_race_races_again() {
    let mut dispatcher = two_services();
    let action = dispatcher.step(LoopEvent::Raced { shutdown: false, accept: None });
    assert!(matches!(action, LoopAction::Race));
    assert!(matches!(dispatcher.step(connected(1)), LoopAction::ReceiveFirst));
}

#[test]
fn shutdown_stops_the_loop() {
    let mut dispatcher = two_services();
    let action = dispatcher.step(LoopEvent::Raced { shutdown: true, accept: None });
    assert!(matches!(action, LoopAction::Stop(StopReason::Shutdown)));
    assert_eq!(dispatcher.stopped(), Some(StopReason::Shutdown));
}

#[test]
fn shutdown_wins_ties() {
    let mut dispatcher = two_services();
    let action = dispatcher.step(LoopEvent::Raced {
        shutdown: true,
        accept: Some(AcceptOutcome::Connected(7)),
    });
    assert!(matches!(action, LoopAction::Stop(StopReason::Shutdown)));
    assert_eq!(dispatcher.stopped(), Some(StopReason::Shutdown));

    let mut dispatcher = two_services();
    let action =
        dispatcher.step(LoopEvent::Raced { shutdown: true, accept: Some(AcceptOutcome::Failed) });
    assert!(matches!(action, LoopAction::Stop(StopReason::Shutdown)));
}

#[test]
fn transport_failure_is_fatal() {
    let mut dispatcher = two_services();
    let action =
        dispatcher.step(LoopEvent::Raced { shutdown: false, accept: Some(AcceptOutcome::Failed) });
    assert!(matches!(action, LoopAction::Stop(StopReason::TransportFailure)));
    assert_eq!(dispatcher.stopped(), Some(StopReason::TransportFailure));
}

#[test]
fn stopped_loop_accepts_nothing() {
    let mut dispatcher = two_services();
    dispatcher.step(LoopEvent::Raced { shutdown: true, accept: None });
    let back = dispatcher.step(connected(9));
    assert!(matches!(
        back,
        LoopAction::Unexpected(LoopEvent::Raced {
            shutdown: false,
            accept: Some(AcceptOutcome::Connected(9))
        })
    ));
    let back = dispatcher.step(first("/echo/Get", Envelope::Payload("p".to_string())));
    assert!(matches!(back, LoopAction::Unexpected(LoopEvent::FirstMessage(Some(_)))));
    let back = dispatcher.step(LoopEvent::Ready);
    assert!(matches!(back, LoopAction::Unexpected(LoopEvent::Ready)));
    assert_eq!(dispatcher.stopped(), Some(StopReason::Shutdown));
}

#[test]
fn failed_first_receive_is_skipped() {
    let mut dispatcher = two_services();
    assert!(matches!(dispatcher.step(connected(1)), LoopAction::ReceiveFirst));
    assert!(matches!(dispatcher.step(LoopEvent::FirstMessage(None)), LoopAction::Discard));
    assert_eq!(dispatcher.stopped(), None);
    assert!(matches!(dispatcher.step(connected(2)), LoopAction::ReceiveFirst));
}

#[test]
fn unary_call_is_handed_to_its_handler() {
    let mut dispatcher = two_services();
    dispatcher.step(connected(42));
    let slot = match dispatcher.step(first("/echo/Get", Envelope::Payload("p".to_string()))) {
        LoopAction::AwaitReady { slot } => slot,
        _ => panic!("expected to wait for the handler"),
    };
    assert_eq!(dispatcher.handler_mut(slot).map(|h| *h), Some("echo handler"));
    match dispatcher.step(LoopEvent::Ready) {
        LoopAction::Invoke { slot: invoked, call, task } => {
            assert_eq!(invoked, slot);
            assert_eq!(call.peer, 42);
            assert_eq!(call.path, PathAndQuery::from_static("/echo/Get"));
            assert_eq!(call.requests.kind(), Some(CallKind::Unary));
            assert_eq!(task, ResponseTask::Draining);
        }
        _ => panic!("expected the handoff"),
    }
    assert!(matches!(dispatcher.step(connected(43)), LoopAction::ReceiveFirst));
}

#[test]
fn streaming_call_is_handed_to_its_handler() {
    let mut dispatcher = two_services();
    dispatcher.step(connected(1));
    let slot = match dispatcher.step(first("/time/Ticks", Envelope::StreamMarker)) {
        LoopAction::AwaitReady { slot } => slot,
        _ => panic!("expected to wait for the handler"),
    };
    assert_eq!(dispatcher.handler_mut(slot).map(|h| *h), Some("time handler"));
    match dispatcher.step(LoopEvent::Ready) {
        LoopAction::Invoke { call, .. } => {
            assert_eq!(call.requests.kind(), Some(CallKind::Streaming));
            assert_eq!(call.path.path(), "/time/Ticks");
        }
        _ => panic!("expected the handoff"),
    }
}

#[test]
fn unregistered_service_gets_the_not_found_reply() {
    let mut dispatcher = two_services();
    dispatcher.step(connected(5));
    match dispatcher.step(first("/missing/Get", Envelope::Payload("p".to_string()))) {
        LoopAction::ReplyNotFound { call, task } => {
            assert_eq!(call.peer, 5);
            assert_eq!(call.path.path(), "/missing/Get");
            assert_eq!(task, ResponseTask::Draining);
        }
        _ => panic!("expected the not-found reply"),
    }
    assert_eq!(dispatcher.stopped(), None);
    assert!(matches!(dispatcher.step(connected(6)), LoopAction::ReceiveFirst));
}

#[test]
fn lookup_reads_the_first_segment_only() {
    let mut dispatcher = two_services();
    let mut slots = Vec::new();
    for path in ["/echo/Get", "/echo/Stream", "/echo", "/echo/a/b/c", "/echo/Get?time"] {
        dispatcher.step(connected(1));
        match dispatcher.step(first(path, Envelope::StreamMarker)) {
            LoopAction::AwaitReady { slot } => slots.push(slot),
            _ => panic!("expected to wait for the handler"),
        }
        assert!(matches!(dispatcher.step(LoopEvent::Ready), LoopAction::Invoke { .. }));
    }
    assert!(slots.iter().all(|slot| *slot == slots[0]));
    assert_eq!(dispatcher.handler_mut(slots[0]).map(|h| *h), Some("echo handler"));
}

#[test]
fn method_name_does_not_route() {
    let mut dispatcher = two_services();
    for path in ["/Get/echo", "/", "//echo", "/echo2/Get", "/ech/o"] {
        dispatcher.step(connected(1));
        let action = dispatcher.step(first(path, Envelope::StreamMarker));
        assert!(matches!(action, LoopAction::ReplyNotFound { .. }));
    }
}

#[test]
fn loop_waits_for_readiness_before_anything_else() {
    let mut dispatcher = two_services();
    dispatcher.step(connected(1));
    dispatcher.step(first("/echo/Get", Envelope::Payload("p".to_string())));
    let back = dispatcher.step(connected(2));
    assert!(matches!(back, LoopAction::Unexpected(LoopEvent::Raced { .. })));
    let back = dispatcher.step(LoopEvent::Raced { shutdown: true, accept: None });
    assert!(matches!(back, LoopAction::Unexpected(LoopEvent::Raced { shutdown: true, .. })));
    assert_eq!(dispatcher.stopped(), None);
    assert!(matches!(dispatcher.step(LoopEvent::Ready), LoopAction::Invoke { .. }));
}

#[test]
fn loop_hands_back_what_it_did_not_ask_for() {
    let mut dispatcher = two_services();
    assert!(matches!(
        dispatcher.step(LoopEvent::Ready),
        LoopAction::Unexpected(LoopEvent::Ready)
    ));
    assert!(matches!(
        dispatcher.step(LoopEvent::FirstMessage(None)),
        LoopAction::Unexpected(LoopEvent::FirstMessage(None))
    ));
    dispatcher.step(connected(1));
    assert!(matches!(
        dispatcher.step(LoopEvent::Ready),
        LoopAction::Unexpected(LoopEvent::Ready)
    ));
    assert!(matches!(dispatcher.step(LoopEvent::FirstMessage(None)), LoopAction::Discard));
}

#[test]
fn handlers_keep_their_state_between_calls() {
    let mut registry: Registry<u32> = Registry::new();
    registry.register("count", 0);
    let mut dispatcher: Dispatcher<u32, u32, String> = Dispatcher::new(registry);
    for _ in 0..3 {
        dispatcher.step(connected(1));
        let slot = match dispatcher.step(first("/count/Up", Envelope::StreamMarker)) {
            LoopAction::AwaitReady { slot } => slot,
            _ => panic!("expected to wait for the handler"),
        };
        dispatcher.step(LoopEvent::Ready);
        *dispatcher.handler_mut(slot).unwrap() += 1;
    }
    let slot = 0;
    assert_eq!(dispatcher.handler_mut(slot).map(|h| *h), Some(3));
    assert!(dispatcher.handler_mut(1).is_none());
}
