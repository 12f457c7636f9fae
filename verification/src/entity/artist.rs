//! A derived artist grouping: never persisted, always recomputed from the
//! current song set.

use vstd::prelude::*;
use crate::entity::song::Song;
use crate::model::Dup;
use crate::model::dup_strings;

verus! {

/// One artist group: the artist's name and the paths of its songs.
#[derive(Debug)]
pub struct Artist {
    pub name: String,
    pub songs: Vec<String>,
}

/// The mathematical value of an artist group.
#[verifier::ext_equal]
pub struct ArtistView {
    pub name: Seq<char>,
    pub songs: Seq<Seq<char>>,
}

impl View for Artist {
    type V = ArtistView;

    open spec fn view(&self) -> ArtistView {
        ArtistView { name: self.name@, songs: self.songs@.map_values(|p: String| p@) }
    }
}

impl Clone for Artist {
    fn clone(&self) -> (res: Self)
        ensures
            res@ == self@,
    {
        Artist { name: self.name.clone(), songs: dup_strings(&self.songs) }
    }
}

impl Dup for Artist {
    fn dup(&self) -> (r: Self)
        ensures
            r@ == self@,
    {
        self.clone()
    }
}

impl Artist {
    pub fn new(name: String, songs: Vec<String>) -> (r: Self)
        ensures
            r@.name == name@,
            r@.songs == songs@.map_values(|p: String| p@),
    {
        Artist { name, songs }
    }

    /// A single-song group for the song's artist, or nothing when the song
    /// has none.
    pub fn from_song(song: &Song) -> (r: Option<Self>)
        ensures
            match song@.artist {
                Some(name) => r matches Some(a) && a@.name == name && a@.songs =~= seq![
                    song@.path,
                ],
                None => r is None,
            },
    {
        match &song.artist {
            Some(artist_name) => {
                let mut songs: Vec<String> = Vec::new();
                songs.push(song.path.clone());
                Some(Artist { name: artist_name.clone(), songs })
            },
            None => None,
        }
    }
}

} // verus!
