//! The recent-list controller: owns the recent-list store operations.

use vstd::prelude::*;
use crate::entity::recent::Recent;
use crate::entity::recent::RecentView;
use crate::op::recent::RecentOp;
use crate::sm::StoreManager;
use crate::sm::load_model;

verus! {

/// The recent-list controller.
pub struct RecentController {
    pub op: RecentOp,
}

impl RecentController {
    /// The stored list, as the operations expose it.
    pub open spec fn contents(&self) -> Option<Seq<RecentView>> {
        self.op.contents()
    }

    pub fn new(sm: StoreManager<Recent>) -> (r: Self)
        ensures
            r.contents() == load_model(sm.model()),
    {
        RecentController { op: RecentOp::new(sm) }
    }

    /// The owned store operations.
    pub fn get_op(&self) -> (r: &RecentOp)
        ensures
            r == &self.op,
    {
        &self.op
    }
}

} // verus!
