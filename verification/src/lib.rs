//! The request-handling rules of the Spire API gateway: request matchers,
//! authentication, rate limiting, circuit breaking, response compression,
//! request-header rewriting, routing decisions, listener and certificate choice, over
//! plain models of HTTP headers and time.
pub mod text;
pub mod headers;
pub mod error;
pub mod clock;
pub mod middleware;
pub mod net;
pub mod matcher;
pub mod commands;
pub mod routing;
pub mod config;
pub mod duration;
pub mod openapi;
pub mod tls;
pub mod listener;
