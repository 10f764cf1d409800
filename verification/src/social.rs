//! Sharing music with friends: collaborative playlists, listening parties,
//! libraries and streams between Fugue nodes.
//!
//! Each node has a stable identity. Friends exchange tickets out of band and
//! never see each other's backend credentials: Fugue proxies streams on
//! behalf of friends.

pub mod activity;
pub mod bandwidth;
pub mod collab_playlist;
pub mod collab_state;
pub mod crdt;
pub mod follow_poll;
pub mod friends;
pub mod library;
pub mod node;
pub mod party;
pub mod protocol;
pub mod service;
pub mod subsonic_bridge;
