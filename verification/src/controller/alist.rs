//! The curated-list controller: owns the curated-list store operations.

use vstd::prelude::*;
use crate::entity::alist::Alist;
use crate::entity::alist::AlistView;
use crate::op::alist::AlistOp;
use crate::sm::StoreManager;
use crate::sm::load_model;

verus! {

/// The curated-list controller.
pub struct AlistController {
    pub op: AlistOp,
}

impl AlistController {
    /// The stored collection, as the operations expose it.
    pub open spec fn contents(&self) -> Option<Seq<AlistView>> {
        self.op.contents()
    }

    /// The store's invariant: curated-list names are unique.
    pub open spec fn inv(&self) -> bool {
        self.op.inv()
    }

    pub fn new(sm: StoreManager<Alist>) -> (r: Self)
        ensures
            r.contents() == load_model(sm.model()),
    {
        AlistController { op: AlistOp::new(sm) }
    }

    /// The owned store operations.
    pub fn get_op(&self) -> (r: &AlistOp)
        ensures
            r == &self.op,
    {
        &self.op
    }
}

} // verus!
