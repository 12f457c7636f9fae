//! The entity controllers: one per persisted or derived collection, each
//! owning that collection's store operations.

pub mod alist;
pub mod artist;
pub mod list;
pub mod lyric;
pub mod pic;
pub mod recent;
pub mod release;
pub mod song;
