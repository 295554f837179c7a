//! A sans-I/O core for a small HTTP server that either relays requests to a
//! backend, compressing the responses, or serves static files.

pub mod args;
pub mod compression;
pub mod error;
pub mod file_serving;
pub mod numbers;
pub mod proxy;
pub mod server;
pub mod text;
