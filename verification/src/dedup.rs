//! Cross-backend deduplication.
//!
//! When the same music exists on several backends, Fugue detects the overlap
//! and presents a single library without duplicates. Every track and album has
//! a fingerprint of its normalized metadata; items with equal fingerprints are
//! one. Of the copies the best is picked: by bitrate, by format (FLAC before
//! Opus before MP3) and by the weight of the backend.

pub mod matcher;
pub mod resolver;
