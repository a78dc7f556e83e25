//! Request dispatch core: routing of unary and streaming calls to named
//! services, as explicit state machines with verified transitions.
//!
//! The core does no I/O and never waits. A driver accepts connections,
//! receives and sends messages, polls handlers and spawns tasks; it reports
//! each outcome to one of three state machines and carries out the action
//! that comes back:
//!
//! - [`dispatch::Dispatcher`], the loop that accepts, classifies, routes and
//!   hands off;
//! - [`request::RequestSource`], the request sequence of one call;
//! - [`response::ResponseTask`], the task that streams the responses of one
//!   call back.
//!
//! [`registry::Registry`] holds the handlers by service name, [`path`] finds
//! the service name of a path, [`server`] is the configuration surface, and
//! [`session`] states what holds of the loop and the calls together.

pub mod dispatch;
pub mod message;
pub mod path;
pub mod registry;
pub mod request;
pub mod response;
pub mod server;
pub mod session;
pub mod status;
