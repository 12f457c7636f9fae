//! The persistent document store: exactly one typed collection held as a
//! single document. The store models the document's state; reading the
//! document from disk and writing it back are the caller's side of the
//! boundary, performed on the state this store exposes.

use vstd::prelude::*;
use crate::error::CoreError;
use crate::error::CoreResult;
use crate::model::Dup;
use crate::model::dup_vec;
use crate::model::views_of;

verus! {

/// The state of a stored document: absent (first run), present with a
/// parsed collection, or present but unparseable.
#[derive(Debug)]
pub enum DocState<C> {
    Absent,
    Present(C),
    Corrupt,
}

/// The mathematical state of a stored document.
pub enum DocModel<V> {
    Absent,
    Present(Seq<V>),
    Corrupt,
}

/// The model of a concrete document state.
pub open spec fn doc_model<T: View>(d: DocState<Vec<T>>) -> DocModel<<T as View>::V> {
    match d {
        DocState::Absent => DocModel::Absent,
        DocState::Present(v) => DocModel::Present(views_of(v@)),
        DocState::Corrupt => DocModel::Corrupt,
    }
}

/// What `load` yields for a document in the given state: the collection if
/// present, the empty collection if absent, nothing if corrupt.
pub open spec fn load_model<V>(m: DocModel<V>) -> Option<Seq<V>> {
    match m {
        DocModel::Absent => Some(Seq::empty()),
        DocModel::Present(s) => Some(s),
        DocModel::Corrupt => None,
    }
}

/// Manages one stored collection as a single document.
#[derive(Debug)]
pub struct StoreManager<T> {
    doc: DocState<Vec<T>>,
}

impl<T: Dup> StoreManager<T> {
    /// The modelled document state.
    pub closed spec fn model(&self) -> DocModel<<T as View>::V> {
        doc_model(self.doc)
    }

    /// A store whose document does not exist yet.
    pub fn new() -> (r: Self)
        ensures
            r.model() is Absent,
    {
        StoreManager { doc: DocState::Absent }
    }

    /// A store over a document already read from storage.
    pub fn from_document(doc: DocState<Vec<T>>) -> (r: Self)
        ensures
            r.model() == doc_model(doc),
    {
        StoreManager { doc }
    }

    /// The current document state, for the caller to persist.
    pub fn current(&self) -> (r: &DocState<Vec<T>>)
        ensures
            doc_model(*r) == self.model(),
    {
        &self.doc
    }

    /// Loads the stored collection: the parsed contents when the document
    /// exists, the empty collection when it is absent, and a corruption
    /// error when it exists but could not be parsed.
    pub fn load(&self) -> (r: CoreResult<Vec<T>>)
        ensures
            match load_model(self.model()) {
                Some(s) => r matches Ok(v) && views_of(v@) == s,
                None => r == Err::<Vec<T>, CoreError>(CoreError::StorageCorrupt),
            },
    {
        match &self.doc {
            DocState::Absent => {
                proof {
                    assert(views_of(Seq::<T>::empty()) =~= Seq::<<T as View>::V>::empty());
                }
                Ok(Vec::new())
            },
            DocState::Present(v) => Ok(dup_vec(v)),
            DocState::Corrupt => Err(CoreError::StorageCorrupt),
        }
    }

    /// Overwrites the document in full with the given collection.
    pub fn save(&mut self, items: &Vec<T>)
        ensures
            final(self).model() == DocModel::Present(views_of(items@)),
    {
        self.doc = DocState::Present(dup_vec(items));
    }
}

/// Saving a freshly loaded collection is idempotent: the document after the
/// save holds exactly what was loaded, so loading again yields the same
/// collection.
pub proof fn lemma_save_load_round_trip<V>(before: DocModel<V>, loaded: Seq<V>, after: DocModel<V>)
    requires
        load_model(before) == Some(loaded),
        after == DocModel::Present(loaded),
    ensures
        load_model(after) == Some(loaded),
        before is Present ==> after == before,
{
}

} // verus!
