//! The request middlewares and the verdict each gives on a request.
pub mod check;
pub mod circuit_breaker;
pub mod rate_limit;
pub mod compression;
pub mod authentication;
pub mod request_headers;
