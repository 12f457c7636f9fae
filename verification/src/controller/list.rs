//! The playlist controller: owns the playlist store operations.

use vstd::prelude::*;
use crate::entity::list::Playlist;
use crate::entity::list::PlaylistView;
use crate::op::list::PlaylistOp;
use crate::sm::StoreManager;
use crate::sm::load_model;

verus! {

/// The playlist controller.
pub struct PlaylistController {
    pub op: PlaylistOp,
}

impl PlaylistController {
    /// The stored collection, as the operations expose it.
    pub open spec fn contents(&self) -> Option<Seq<PlaylistView>> {
        self.op.contents()
    }

    /// The store's invariant: playlist names are unique.
    pub open spec fn inv(&self) -> bool {
        self.op.inv()
    }

    pub fn new(sm: StoreManager<Playlist>) -> (r: Self)
        ensures
            r.contents() == load_model(sm.model()),
    {
        PlaylistController { op: PlaylistOp::new(sm) }
    }

    /// The owned store operations.
    pub fn get_op(&self) -> (r: &PlaylistOp)
        ensures
            r == &self.op,
    {
        &self.op
    }
}

} // verus!
