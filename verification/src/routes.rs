//! The handlers behind the service's two routes.

pub mod health_check;
pub mod subscriptions;
