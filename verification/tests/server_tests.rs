use madsim_tonic::dispatch::{AcceptOutcome, Dispatcher, LoopAction, LoopEvent};
use madsim_tonic::message::Envelope;
use madsim_tonic::server::{Router, Server};
use std::time::Duration;
use tonic::codegen::http::uri::PathAndQuery;
use tower::layer::util::Identity;

fn routes_to(dispatcher: &mut Dispatcher<u8, u8, u8>, path: &'static str) -> Option<u8> {
    dispatcher.step(LoopEvent::Raced {
        shutdown: false,
        accept: Some(AcceptOutcome::Connected(0)),
    });
    let message = LoopEvent::FirstMessage(Some((PathAndQuery::from_static(path), Envelope::StreamMarker)));
    match dispatcher.step(message) {
        LoopAction::AwaitReady { slot } => {
            dispatcher.step(LoopEvent::Ready);
            dispatcher.handler_mut(slot).map(|h| *h)
        }
        _ => None,
    }
}

#[test]
fn builder_settings_are_accepted() {
    let mut server = Server::builder()
        .concurrency_limit_per_connection(32)
        .timeout(Duration::from_secs(1))
        .initial_stream_window_size(1024)
        .initial_connection_window_size(Some(2048))
        .max_concurrent_streams(None)
        .http2_keepalive_interval(Some(Duration::from_secs(5)))
        .http2_keepalive_timeout(None)
        .tcp_keepalive(Some(Duration::from_secs(9)))
        .tcp_nodelay(true)
        .max_frame_size(16384)
        .accept_http1(false);
    let router: Router<u8> = server.add_service("one", 1);
    let mut dispatcher: Dispatcher<u8, u8, u8> = router.into_dispatcher();
    assert_eq!(routes_to(&mut dispatcher, "/one/Get"), Some(1));
}

#[test]
fn default_builder_works_like_builder() {
    let mut server: Server = Server::default();
    let mut dispatcher: Dispatcher<u8, u8, u8> = server.add_service("one", 1).into_dispatcher();
    assert_eq!(routes_to(&mut dispatcher, "/one/Get"), Some(1));
    assert_eq!(routes_to(&mut dispatcher, "/two/Get"), None);
}

#[test]
fn layered_builder_still_routes() {
    let mut server = Server::builder().layer(Identity::new()).layer(Identity::new());
    let mut copy = server.clone();
    let mut dispatcher: Dispatcher<u8, u8, u8> = server.add_service("one", 1).into_dispatcher();
    assert_eq!(routes_to(&mut dispatcher, "/one/Get"), Some(1));
    let mut dispatcher: Dispatcher<u8, u8, u8> = copy.add_service("two", 2).into_dispatcher();
    assert_eq!(routes_to(&mut dispatcher, "/two/Get"), Some(2));
    assert_eq!(routes_to(&mut dispatcher, "/one/Get"), None);
}

#[test]
fn router_collects_services() {
    let mut server = Server::builder();
    let router = server.add_service("a", 1).add_service("b", 2).add_service("c", 3);
    let mut dispatcher: Dispatcher<u8, u8, u8> = router.into_dispatcher();
    assert_eq!(routes_to(&mut dispatcher, "/a/x"), Some(1));
    assert_eq!(routes_to(&mut dispatcher, "/b/x"), Some(2));
    assert_eq!(routes_to(&mut dispatcher, "/c/x"), Some(3));
    assert_eq!(routes_to(&mut dispatcher, "/d/x"), None);
}

#[test]
fn builder_starts_several_routers() {
    let mut server = Server::builder();
    let mut first: Dispatcher<u8, u8, u8> = server.add_service("a", 1).into_dispatcher();
    let mut second: Dispatcher<u8, u8, u8> = server.add_service("b", 2).into_dispatcher();
    assert_eq!(routes_to(&mut first, "/a/x"), Some(1));
    assert_eq!(routes_to(&mut first, "/b/x"), None);
    assert_eq!(routes_to(&mut second, "/b/x"), Some(2));
    assert_eq!(routes_to(&mut second, "/a/x"), None);
}
