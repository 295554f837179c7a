//! The relaying side: request and response heads, body framing, and the
//! decision between passing a response through and compressing it.

pub mod chunked;
pub mod handlers;
pub mod headers;
pub mod rechunk;
pub mod transfer;
