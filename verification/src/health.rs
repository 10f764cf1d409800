//! Whether backends can be reached.

pub mod probe;
