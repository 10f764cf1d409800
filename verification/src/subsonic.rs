//! The Subsonic API: what its endpoints answer.

pub mod annotation;
pub mod auth;
pub mod browsing;
pub mod extras;
pub mod favorites_db;
pub mod lists;
pub mod media;
pub mod models;
pub mod params;
pub mod playlist_db;
pub mod playlists;
pub mod response;
pub mod search;
pub mod system;
