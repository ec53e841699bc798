//! A minimal HTTP/1.1 server library: response construction with optional
//! gzip compression, request-header fact extraction, routing, and the
//! per-connection request step logic.

pub mod connection;
pub mod headers;
pub mod response;
pub mod router;
pub mod text;
