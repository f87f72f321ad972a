//! An in-memory recipe store with a verified HTTP decision layer.
//!
//! The store owns the canonical collection of recipes and hands out
//! copies only; the `http` module turns store results into status codes
//! and payloads for a thin, unverified server shell to send.

pub mod http;
pub mod model;
pub mod store;
