//! Cached library data.
//!
//! Artists, albums and tracks of all backends are cached, so that browsing and
//! searching need no backend. A background task fetches the library of each
//! backend again and again.
//!
//! The cache counts as fresh for twice the refresh interval. While it is,
//! requests are served from it; otherwise they go to the backends.
//!
//! - [`db`]: what the cache answers
//! - [`meta`]: what is remembered of it
//! - [`refresh`]: what is written to it, and when

pub mod db;
pub mod meta;
pub mod refresh;
