//! The store operations: one module per persisted or derived collection,
//! each enforcing its invariants over one document store.

pub mod alist;
pub mod artist;
pub mod list;
pub mod lyric;
pub mod pic;
pub mod recent;
pub mod release;
pub mod song;
