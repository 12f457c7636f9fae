//! A derived release (album) grouping: never persisted, always recomputed
//! from the current song set.

use vstd::prelude::*;
use crate::entity::song::Song;
use crate::entity::song::opt_view;
use crate::model::Dup;
use crate::model::dup_opt_string;
use crate::model::dup_strings;

verus! {

/// One release group: the release title, its (possibly unknown) artist and
/// the paths of its songs.
#[derive(Debug)]
pub struct Release {
    pub title: String,
    pub artist: Option<String>,
    pub songs: Vec<String>,
}

/// The mathematical value of a release group.
#[verifier::ext_equal]
pub struct ReleaseView {
    pub title: Seq<char>,
    pub artist: Option<Seq<char>>,
    pub songs: Seq<Seq<char>>,
}

impl View for Release {
    type V = ReleaseView;

    open spec fn view(&self) -> ReleaseView {
        ReleaseView {
            title: self.title@,
            artist: opt_view(self.artist),
            songs: self.songs@.map_values(|p: String| p@),
        }
    }
}

impl Clone for Release {
    fn clone(&self) -> (res: Self)
        ensures
            res@ == self@,
    {
        Release {
            title: self.title.clone(),
            artist: dup_opt_string(&self.artist),
            songs: dup_strings(&self.songs),
        }
    }
}

impl Dup for Release {
    fn dup(&self) -> (r: Self)
        ensures
            r@ == self@,
    {
        self.clone()
    }
}

impl Release {
    pub fn new(title: String, artist: Option<String>, songs: Vec<String>) -> (r: Self)
        ensures
            r@.title == title@,
            r@.artist == opt_view(artist),
            r@.songs == songs@.map_values(|p: String| p@),
    {
        Release { title, artist, songs }
    }

    /// A single-song group for the song's release, or nothing when the song
    /// has none.
    pub fn from_song(song: &Song) -> (r: Option<Self>)
        ensures
            match song@.release {
                Some(title) => r matches Some(rel) && rel@.title == title && rel@.artist
                    == song@.artist && rel@.songs =~= seq![song@.path],
                None => r is None,
            },
    {
        match &song.release {
            Some(release_title) => {
                let mut songs: Vec<String> = Vec::new();
                songs.push(song.path.clone());
                Some(
                    Release {
                        title: release_title.clone(),
                        artist: dup_opt_string(&song.artist),
                        songs,
                    },
                )
            },
            None => None,
        }
    }
}

} // verus!
