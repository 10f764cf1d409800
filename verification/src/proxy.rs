//! The proxy between Subsonic clients and several backends.
//!
//! Browsing and search requests go to all backends, and the answers are
//! merged. Every identifier that clients see says which backend it belongs to;
//! a request that brings one back is routed there.

pub mod backend;
pub mod fanout;
pub mod router;
