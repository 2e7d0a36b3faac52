//! Request correlation and structured observability for a small HTTP
//! service.
//!
//! Every request gets a correlation id and a scope. Code that handles the
//! request records fields on the scope, raises events in it and opens scopes
//! below it. When the request is done its scopes are closed, whatever
//! happened, and what they emitted is rendered as one line of JSON each and
//! queued for the sink.
//!
//! Nothing here is ambient: the registry of open scopes is a value that the
//! application owns and shares, and a request carries the handle of its
//! scope with it. The modules, leaf first:
//!
//! - [`correlation`]: correlation ids;
//! - [`scope`]: the fields of a scope;
//! - [`record`]: what scopes and events emit;
//! - [`registry`] and [`spans`]: the open scopes, as a model and as the
//!   structure that holds them; [`trace`]: what holds of all their histories;
//! - [`format`] and [`sink`]: from a record to a line, and where lines wait;
//! - [`subscriber`]: registry, filter, formatter and sink together;
//! - [`pipeline`]: the stages of a request;
//! - [`telemetry`] and [`startup`]: setting all of it up;
//! - [`routes`]: the handlers of the service.

mod clock;
pub mod correlation;
pub mod format;
pub mod pipeline;
pub mod record;
pub mod registry;
pub mod routes;
pub mod scope;
pub mod sink;
pub mod spans;
pub mod startup;
pub mod subscriber;
pub mod telemetry;
pub mod trace;
