//! A playlist: a named, ordered sequence of song paths. Identity is the
//! name alone.

use vstd::prelude::*;
use crate::model::Dup;
use crate::model::dup_strings;

verus! {

/// A playlist record.
#[derive(Debug)]
pub struct Playlist {
    pub name: String,
    pub created_at: String,
    pub songs: Vec<String>,
}

/// The mathematical value of a playlist.
#[verifier::ext_equal]
pub struct PlaylistView {
    pub name: Seq<char>,
    pub created_at: Seq<char>,
    pub songs: Seq<Seq<char>>,
}

impl View for Playlist {
    type V = PlaylistView;

    open spec fn view(&self) -> PlaylistView {
        PlaylistView {
            name: self.name@,
            created_at: self.created_at@,
            songs: self.songs@.map_values(|p: String| p@),
        }
    }
}

impl Clone for Playlist {
    fn clone(&self) -> (res: Self)
        ensures
            res@ == self@,
    {
        Playlist {
            name: self.name.clone(),
            created_at: self.created_at.clone(),
            songs: dup_strings(&self.songs),
        }
    }
}

impl Dup for Playlist {
    fn dup(&self) -> (r: Self)
        ensures
            r@ == self@,
    {
        self.clone()
    }
}

impl Playlist {
    pub fn new(name: String, created_at: String, songs: Vec<String>) -> (r: Self)
        ensures
            r@.name == name@,
            r@.created_at == created_at@,
            r@.songs == songs@.map_values(|p: String| p@),
    {
        Playlist { name, created_at, songs }
    }

    /// A probe record carrying only a name, used to address the store by key.
    pub fn sample(name: String) -> (r: Self)
        ensures
            r@.name == name@,
            r@.created_at == "2024-01-01T00:00:00+00:00"@,
            r@.songs.len() == 0,
    {
        Playlist {
            name,
            created_at: "2024-01-01T00:00:00+00:00".to_owned(),
            songs: Vec::new(),
        }
    }
}

} // verus!
