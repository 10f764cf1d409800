//! The logic of Fugue, a Subsonic API proxy that merges several music servers
//! into one library and lets friends share it.

pub mod cache;
pub mod cli;
pub mod clock;
pub mod codec;
pub mod config;
pub mod dedup;
pub mod error;
pub mod health;
pub mod id;
pub mod json;
pub mod like;
pub mod natural;
pub mod proxy;
pub mod random;
pub mod seqs;
pub mod social;
pub mod sorting;
pub mod strs;
pub mod subsonic;
pub mod table;
pub mod unicode;
pub mod xml;
