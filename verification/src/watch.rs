//! The watch registry: which roots are subscribed for change
//! notifications. The OS-level subscription itself lives with the caller;
//! this registry decides what is watched and rejects double registration.

use vstd::prelude::*;
use crate::error::CoreError;
use crate::error::CoreResult;
use crate::model::contains_string;
use crate::model::views_of;

verus! {

/// The registered watch roots.
#[derive(Debug)]
pub struct DirectoryWatcher {
    pub watched_paths: Vec<String>,
}

impl DirectoryWatcher {
    /// The registered roots, in registration order.
    pub open spec fn watched(&self) -> Seq<Seq<char>> {
        views_of(self.watched_paths@)
    }

    /// No root is registered twice.
    pub open spec fn inv(&self) -> bool {
        forall|i: int, j: int|
            0 <= i < j < self.watched().len() ==> self.watched()[i] != self.watched()[j]
    }

    /// A registry with nothing watched.
    pub fn new() -> (r: Self)
        ensures
            r.inv(),
            r.watched() == Seq::<Seq<char>>::empty(),
    {
        let watched_paths: Vec<String> = Vec::new();
        proof {
            assert(views_of(watched_paths@) =~= Seq::<Seq<char>>::empty());
        }
        DirectoryWatcher { watched_paths }
    }

    /// Registers a root; fails with AlreadyWatched if it is registered,
    /// leaving the registry unchanged.
    pub fn watch(&mut self, path: String) -> (r: CoreResult<()>)
        requires
            old(self).inv(),
        ensures
            final(self).inv(),
            if old(self).watched().contains(path@) {
                r == Err::<(), CoreError>(CoreError::AlreadyWatched) && *final(self) == *old(self)
            } else {
                r is Ok && final(self).watched() == old(self).watched().push(path@)
            },
    {
        if contains_string(&self.watched_paths, &path) {
            proof {
                lemma_strings_contains(self.watched_paths@, path@);
            }
            return Err(CoreError::AlreadyWatched);
        }
        proof {
            lemma_strings_contains(self.watched_paths@, path@);
        }
        let ghost w = self.watched();
        self.watched_paths.push(path);
        proof {
            assert(self.watched() =~= w.push(self.watched_paths@.last()@));
        }
        Ok(())
    }

    /// Unregisters a root; fails with NotWatched if it was never
    /// registered, leaving the registry unchanged.
    #[verifier::loop_isolation(false)]
    pub fn unwatch(&mut self, path: &String) -> (r: CoreResult<()>)
        requires
            old(self).inv(),
        ensures
            final(self).inv(),
            if old(self).watched().contains(path@) {
                r is Ok && exists|i: int|
                    0 <= i < old(self).watched().len() && old(self).watched()[i] == path@ && final(self).watched() == old(self).watched().remove(i)
            } else {
                r == Err::<(), CoreError>(CoreError::NotWatched) && *final(self) == *old(self)
            },
    {
        let mut i: usize = 0;
        while i < self.watched_paths.len()
            invariant
                i <= self.watched_paths.len(),
                forall|j: int| 0 <= j < i ==> (#[trigger] self.watched_paths@[j])@ != path@,
                *self == *old(self),
            decreases self.watched_paths.len() - i,
        {
            if path.eq(&self.watched_paths[i]) {
                let ghost w = self.watched();
                let _ = self.watched_paths.remove(i);
                proof {
                    assert(w[i as int] == path@);
                    assert(self.watched() =~= w.remove(i as int));
                }
                return Ok(());
            }
            i = i + 1;
        }
        proof {
            assert forall|k: int| 0 <= k < self.watched().len() implies #[trigger] self.watched()[k]
                != path@ by {
            }
            assert(!self.watched().contains(path@));
        }
        Err(CoreError::NotWatched)
    }

    /// The registered roots, as copies.
    pub fn glob(&self) -> (r: Vec<String>)
        ensures
            views_of(r@) == self.watched(),
    {
        crate::model::dup_strings(&self.watched_paths)
    }
}

/// Membership in a string list is membership of the view in the views.
proof fn lemma_strings_contains(v: Seq<String>, x: Seq<char>)
    ensures
        views_of(v).contains(x) <==> v.map_values(|s: String| s@).contains(x),
{
    assert(views_of(v) =~= v.map_values(|s: String| s@));
}

} // verus!
