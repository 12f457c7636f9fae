//! The release controller: owns the derived release view over the song
//! store.

use vstd::prelude::*;
use crate::entity::release::Release;
use crate::entity::song::Song;
use crate::entity::song::SongView;
use crate::error::CoreError;
use crate::error::CoreResult;
use crate::model::views_of;
use crate::op::release::ReleaseOp;
use crate::op::release::rel_title;
use crate::op::release::releases_spec;
use crate::sm::StoreManager;
use crate::sm::load_model;

verus! {

/// The release controller.
pub struct ReleaseController {
    pub op: ReleaseOp,
}

impl ReleaseController {
    /// The stored song collection backing the view.
    pub open spec fn contents(&self) -> Option<Seq<SongView>> {
        self.op.contents()
    }

    pub fn new(sm: StoreManager<Song>) -> (r: Self)
        ensures
            r.contents() == load_model(sm.model()),
    {
        ReleaseController { op: ReleaseOp::new(sm) }
    }

    /// The owned store operations.
    pub fn get_op(&self) -> (r: &ReleaseOp)
        ensures
            r == &self.op,
    {
        &self.op
    }

    /// The single-song release group for one song, with the sentinel title
    /// when the song has no release tag.
    pub fn from_song(&self, song: &Song) -> (r: Release)
        ensures
            r@.title == rel_title(song@),
            r@.artist == song@.artist,
            r@.songs =~= seq![song@.path],
    {
        self.op.from_song(song)
    }

    /// Groups the given songs by release title and artist, in ascending
    /// key order.
    pub fn from_songs(&self, songs: &Vec<Song>) -> (r: Vec<Release>)
        ensures
            views_of(r@) == releases_spec(views_of(songs@)),
    {
        self.op.from_songs(songs)
    }

    /// The release view of the stored song collection.
    pub fn list_all(&self) -> (r: CoreResult<Vec<Release>>)
        ensures
            match self.contents() {
                None => r == Err::<Vec<Release>, CoreError>(CoreError::StorageCorrupt),
                Some(s) => r matches Ok(v) && views_of(v@) == releases_spec(s),
            },
    {
        self.op.list_all()
    }
}

} // verus!
