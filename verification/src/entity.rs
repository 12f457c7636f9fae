//! The catalog's record types: songs and their quality scores, playlists,
//! curated lists, derived artist and release groupings, and recent entries.

pub mod alist;
pub mod artist;
pub mod list;
pub mod recent;
pub mod release;
pub mod song;
