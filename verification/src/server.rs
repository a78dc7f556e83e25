//! The configuration surface: a server builder, and the router that collects
//! the services before serving begins.
//!
//! Only `add_service` has an effect. The transport settings are accepted so
//! that callers written against a fuller transport keep compiling, and are
//! ignored: each hands the builder back as it came.

use crate::dispatch::{Dispatcher, Phase};
use crate::registry::Registry;
use std::time::Duration;
use tower::layer::util::{Identity, Stack};
use tower::ServiceBuilder;
use vstd::prelude::*;

verus! {

/// Outside type: the layer stack of `tower`.
#[verifier::external_type_specification]
#[verifier::external_body]
#[verifier::reject_recursive_types(L)]
pub struct ExServiceBuilder<L>(ServiceBuilder<L>);

/// Outside type: two layers, one inside the other.
#[verifier::external_type_specification]
#[verifier::external_body]
#[verifier::reject_recursive_types(Inner)]
#[verifier::reject_recursive_types(Outer)]
pub struct ExStack<Inner, Outer>(Stack<Inner, Outer>);

/// Outside type: the layer that changes nothing.
#[verifier::external_type_specification]
#[verifier::external_body]
pub struct ExIdentity(Identity);

/// Trusted: `ServiceBuilder::new`. Nothing is claimed of the stack that
/// comes back.
#[verifier::external_body]
fn empty_stack() -> ServiceBuilder<Identity> {
    ServiceBuilder::new()
}

/// Trusted: `ServiceBuilder::layer`. Nothing is claimed of the stack that
/// comes back.
#[verifier::external_body]
fn push_layer<N, L>(stack: ServiceBuilder<L>, layer: N) -> ServiceBuilder<Stack<N, L>> {
    stack.layer(layer)
}

/// Trusted: `Clone::clone` of `ServiceBuilder`. Nothing is claimed of the
/// copy.
#[verifier::external_body]
fn copy_stack<L: Clone>(stack: &ServiceBuilder<L>) -> ServiceBuilder<L> {
    stack.clone()
}

/// A server builder.
#[derive(Debug)]
#[verifier::reject_recursive_types(L)]
pub struct Server<L = Identity> {
    builder: ServiceBuilder<L>,
}

/// A router: the builder it came from, and the services added so far.
#[verifier::reject_recursive_types(L)]
pub struct Router<H, L = Identity> {
    server: Server<L>,
    services: Registry<H>,
}

impl Default for Server<Identity> {
    fn default() -> Self {
        Server { builder: empty_stack() }
    }
}

impl<L: Clone> Clone for Server<L> {
    fn clone(&self) -> Self {
        Server { builder: copy_stack(&self.builder) }
    }
}

impl Server<Identity> {
    /// A new builder.
    pub fn builder() -> Self {
        Server { builder: empty_stack() }
    }
}

impl<L> Server<L> {
    /// Starts a router with `svc` as its first service, registered under
    /// `name`. The builder itself stays as it is.
    pub fn add_service<H>(&mut self, name: &str, svc: H) -> (router: Router<H, L>) where L: Clone
        ensures
            *final(self) == *old(self),
            router.services()@ == Map::<Seq<char>, H>::empty().insert(name@, svc),
    {
        let router = Router { server: self.clone(), services: Registry::new() };
        router.add_service(name, svc)
    }

    /// Accepts a layer for all services. Layers are not applied.
    pub fn layer<NewLayer>(self, new_layer: NewLayer) -> Server<Stack<NewLayer, L>> {
        Server { builder: push_layer(self.builder, new_layer) }
    }

    /// Accepted and ignored.
    #[must_use]
    pub fn concurrency_limit_per_connection(self, _limit: usize) -> (server: Self)
        ensures
            server == self,
    {
        self
    }

    /// Accepted and ignored: no call is ever timed out.
    #[must_use]
    pub fn timeout(self, _timeout: Duration) -> (server: Self)
        ensures
            server == self,
    {
        self
    }

    /// Accepted and ignored.
    #[must_use]
    pub fn initial_stream_window_size(self, _sz: impl Into<Option<u32>>) -> (server: Self)
        ensures
            server == self,
    {
        self
    }

    /// Accepted and ignored.
    #[must_use]
    pub fn initial_connection_window_size(self, _sz: impl Into<Option<u32>>) -> (server: Self)
        ensures
            server == self,
    {
        self
    }

    /// Accepted and ignored.
    #[must_use]
    pub fn max_concurrent_streams(self, _max: impl Into<Option<u32>>) -> (server: Self)
        ensures
            server == self,
    {
        self
    }

    /// Accepted and ignored.
    #[must_use]
    pub fn http2_keepalive_interval(self, _http2_keepalive_interval: Option<Duration>) -> (server:
        Self)
        ensures
            server == self,
    {
        self
    }

    /// Accepted and ignored.
    #[must_use]
    pub fn http2_keepalive_timeout(self, _http2_keepalive_timeout: Option<Duration>) -> (server:
        Self)
        ensures
            server == self,
    {
        self
    }

    /// Accepted and ignored.
    #[must_use]
    pub fn tcp_keepalive(self, _tcp_keepalive: Option<Duration>) -> (server: Self)
        ensures
            server == self,
    {
        self
    }

    /// Accepted and ignored.
    #[must_use]
    pub fn tcp_nodelay(self, _enabled: bool) -> (server: Self)
        ensures
            server == self,
    {
        self
    }

    /// Accepted and ignored.
    #[must_use]
    pub fn max_frame_size(self, _frame_size: impl Into<Option<u32>>) -> (server: Self)
        ensures
            server == self,
    {
        self
    }

    /// Accepted and ignored.
    #[must_use]
    pub fn accept_http1(self, _accept_http1: bool) -> (server: Self)
        ensures
            server == self,
    {
        self
    }
}

impl<H, L> Router<H, L> {
    /// The services added so far.
    pub closed spec fn services(&self) -> Registry<H> {
        self.services
    }

    /// The builder that the router came from.
    pub closed spec fn server(&self) -> Server<L> {
        self.server
    }

    /// Adds a service under `name`. A service added earlier under the same
    /// name is replaced: the last one added is the one that serves.
    pub fn add_service(self, name: &str, svc: H) -> (router: Self)
        ensures
            router.server() == self.server(),
            router.services()@ == self.services()@.insert(name@, svc),
            forall|other: Seq<char>| #[trigger]
                self.services().slots().contains_key(other) ==> router.services().spec_resolve(
                    other,
                ) == self.services().spec_resolve(other),
    {
        let mut router = self;
        let _ = router.services.register(name, svc);
        router
    }

    /// Ends configuration: the dispatch loop of a serving session over the
    /// services of this router, about to accept its first connection.
    pub fn into_dispatcher<A, P>(self) -> (dispatcher: Dispatcher<H, A, P>)
        ensures
            dispatcher.registry() == self.services(),
            dispatcher.phase() == Phase::<A, P>::Accepting,
    {
        Dispatcher::new(self.services)
    }
}

} // verus!
