//! One-request-per-connection HTTP service core: request framing over a raw
//! byte stream, the length resolver, the dispatcher and response rendering.
pub mod config;
pub mod framing;
pub mod header;
pub mod number;
pub mod response;
pub mod service;
