//! A recently-accessed entry: a song path plus an optional access
//! timestamp. The recent list is ordered newest first.

use vstd::prelude::*;
use crate::clock::now_rfc3339;
use crate::entity::song::Song;
use crate::entity::song::opt_view;
use crate::model::Dup;
use crate::model::dup_opt_string;

verus! {

/// One recently-accessed entry.
#[derive(Debug)]
pub struct Recent {
    pub song: String,
    pub accessed_at: Option<String>,
}

/// The mathematical value of a recent entry.
#[verifier::ext_equal]
pub struct RecentView {
    pub song: Seq<char>,
    pub accessed_at: Option<Seq<char>>,
}

impl View for Recent {
    type V = RecentView;

    open spec fn view(&self) -> RecentView {
        RecentView { song: self.song@, accessed_at: opt_view(self.accessed_at) }
    }
}

impl Clone for Recent {
    fn clone(&self) -> (res: Self)
        ensures
            res == *self,
    {
        Recent { song: self.song.clone(), accessed_at: dup_opt_string(&self.accessed_at) }
    }
}

impl Dup for Recent {
    fn dup(&self) -> (r: Self)
        ensures
            r@ == self@,
    {
        self.clone()
    }
}

/// The persisted ordered list of recent entries, newest first.
pub type Recents = Vec<Recent>;

impl Recent {
    pub fn new(song: String, accessed_at: Option<String>) -> (r: Self)
        ensures
            r@.song == song@,
            r@.accessed_at == opt_view(accessed_at),
    {
        Recent { song, accessed_at }
    }

    /// An entry for the given song, stamped with the current time.
    pub fn from_song(song: Song) -> (r: Self)
        ensures
            r@.song == song@.path,
            r@.accessed_at is Some,
    {
        let accessed_at = Some(now_rfc3339());
        Recent { song: song.path, accessed_at }
    }
}

} // verus!
