//! The artist controller: owns the derived artist view over the song store.

use vstd::prelude::*;
use crate::entity::artist::Artist;
use crate::entity::song::Song;
use crate::entity::song::SongView;
use crate::error::CoreError;
use crate::error::CoreResult;
use crate::model::views_of;
use crate::op::artist::ArtistOp;
use crate::op::artist::artists_spec;
use crate::sm::StoreManager;
use crate::sm::load_model;

verus! {

/// The artist controller.
pub struct ArtistController {
    pub op: ArtistOp,
}

impl ArtistController {
    /// The stored song collection backing the view.
    pub open spec fn contents(&self) -> Option<Seq<SongView>> {
        self.op.contents()
    }

    pub fn new(sm: StoreManager<Song>) -> (r: Self)
        ensures
            r.contents() == load_model(sm.model()),
    {
        ArtistController { op: ArtistOp::new(sm) }
    }

    /// The owned store operations.
    pub fn get_op(&self) -> (r: &ArtistOp)
        ensures
            r == &self.op,
    {
        &self.op
    }

    /// Groups the given songs by artist name, in ascending name order.
    pub fn from_songs(&self, songs: &Vec<Song>) -> (r: Vec<Artist>)
        ensures
            views_of(r@) == artists_spec(views_of(songs@)),
    {
        self.op.from_songs(songs)
    }

    /// The artist view of the stored song collection.
    pub fn list_all(&self) -> (r: CoreResult<Vec<Artist>>)
        ensures
            match self.contents() {
                None => r == Err::<Vec<Artist>, CoreError>(CoreError::StorageCorrupt),
                Some(s) => r matches Ok(v) && views_of(v@) == artists_spec(s),
            },
    {
        self.op.list_all()
    }
}

} // verus!
