//! Catalog engine for a local media library: a diff-based directory scanner,
//! a debounced-watch event router with self-write suppression, persistent
//! document stores with set semantics, entity controllers for songs,
//! playlists, curated lists and recents, and derived release/artist views.

pub mod clock;
pub mod controller;
pub mod dir;
pub mod entity;
pub mod error;
pub mod filesystem;
pub mod library;
pub mod misc;
pub mod model;
pub mod op;
pub mod paths;
pub mod sm;
pub mod stdx;
pub mod text;
pub mod watch;
