//! Operations on the curated-list store: creation, lookup, rename and
//! removal keyed by name, element edits, and the freeze operation that
//! flattens a list into a playlist.

use vstd::prelude::*;
use crate::clock::now_stamp;
use crate::entity::alist::Aelement;
use crate::entity::alist::AelementView;
use crate::entity::alist::Alist;
use crate::entity::alist::AlistView;
use crate::entity::alist::aelem_matches;
use crate::entity::alist::aelem_matches_exec;
use crate::entity::alist::al_key;
use crate::entity::alist::append_element_songs;
use crate::entity::alist::flat_songs;
use crate::entity::list::Playlist;
use crate::error::CoreError;
use crate::error::CoreResult;
use crate::model::first_key_index;
use crate::model::has_key;
use crate::model::lemma_first_key_index;
use crate::model::lemma_remove_at_each_push;
use crate::model::lemma_remove_at_each_stays_none;
use crate::model::lemma_remove_keys_push;
use crate::model::lemma_remove_keys_stays_none;
use crate::model::lemma_views_of_index;
use crate::model::lemma_views_of_len;
use crate::model::remove_at_each;
use crate::model::remove_keys;
use crate::model::sort_desc;
use crate::model::sorted_desc;
use crate::model::unique_keys;
use crate::model::views_of;
use crate::model::dedup_by;
use crate::sm::DocModel;
use crate::sm::DocState;
use crate::sm::StoreManager;
use crate::sm::doc_model;
use crate::sm::load_model;

verus! {

broadcast use lemma_views_of_index, lemma_views_of_len;

/// The elements that do not denote the same entity as the given one.
pub open spec fn not_matching(e0: AelementView) -> spec_fn(AelementView) -> bool {
    |e: AelementView| !aelem_matches(e, e0)
}

/// The elements that denote none of the given entities.
pub open spec fn not_matching_any(es: Seq<AelementView>) -> spec_fn(AelementView) -> bool {
    |e: AelementView|
        !exists|k: int| 0 <= k < es.len() && aelem_matches(e, #[trigger] es[k])
}

/// Finds the first curated list with the given name.
fn find_al(v: &Vec<Alist>, name: &String) -> (r: Option<usize>)
    ensures
        match r {
            Some(i) => (i as int) < v@.len() && views_of(v@)[i as int].name == name@ && forall|
                j: int,
            | 0 <= j < i ==> (#[trigger] views_of(v@)[j]).name != name@,
            None => !has_key(views_of(v@), al_key(), name@),
        },
{
    let mut i: usize = 0;
    while i < v.len()
        invariant
            i <= v.len(),
            forall|j: int| 0 <= j < i ==> (#[trigger] views_of(v@)[j]).name != name@,
        decreases v.len() - i,
    {
        if name.eq(&v[i].name) {
            return Some(i);
        }
        i = i + 1;
    }
    proof {
        assert forall|k: int| 0 <= k < views_of(v@).len() implies al_key()(
            #[trigger] views_of(v@)[k],
        ) != name@ by {
            assert(views_of(v@)[k].name != name@);
        }
    }
    None
}

/// Tests whether an element denotes the same entity as any of the given ones.
fn matches_any(e: &Aelement, es: &Vec<Aelement>) -> (r: bool)
    ensures
        r == !(not_matching_any(views_of(es@))(e@)),
{
    let mut k: usize = 0;
    while k < es.len()
        invariant
            k <= es.len(),
            forall|j: int| 0 <= j < k ==> !aelem_matches(e@, (#[trigger] views_of(es@)[j])),
        decreases es.len() - k,
    {
        if aelem_matches_exec(e, &es[k]) {
            proof {
                assert(aelem_matches(e@, views_of(es@)[k as int]));
            }
            return true;
        }
        k = k + 1;
    }
    false
}

/// Copies of the given records with later records repeating an earlier
/// record's name dropped, so names come out unique.
pub fn dedup_alists(alists: &Vec<Alist>) -> (r: Vec<Alist>)
    ensures
        views_of(r@) == dedup_by(views_of(alists@), al_key(), Set::empty()),
        unique_keys(views_of(r@), al_key()),
{
    let ghost full = views_of(alists@);
    let mut kept: Vec<Alist> = Vec::new();
    let mut j: usize = 0;
    proof {
        assert(full.skip(0) =~= full);
        assert(views_of(kept@) =~= Seq::<AlistView>::empty());
        assert(views_of(kept@).map_values(al_key()).to_set() =~= Set::<Seq<char>>::empty());
        assert(views_of(kept@) + dedup_by(
            full,
            al_key(),
            views_of(kept@).map_values(al_key()).to_set(),
        ) =~= dedup_by(full, al_key(), Set::empty()));
    }
    while j < alists.len()
        invariant
            j <= alists.len(),
            full == views_of(alists@),
            unique_keys(views_of(kept@), al_key()),
            forall|m: int|
                0 <= m < views_of(kept@).len() ==> views_of(kept@).map_values(
                    al_key(),
                ).to_set().contains(al_key()(#[trigger] views_of(kept@)[m])),
            dedup_by(full, al_key(), Set::<Seq<char>>::empty()) == views_of(kept@) + dedup_by(
                full.skip(j as int),
                al_key(),
                views_of(kept@).map_values(al_key()).to_set(),
            ),
        decreases alists.len() - j,
    {
        let ghost seen = views_of(kept@).map_values(al_key()).to_set();
        let ghost rest = full.skip(j as int);
        proof {
            assert(rest[0] == full[j as int]);
            assert(rest.skip(1) =~= full.skip(j + 1));
            assert(seen.contains(al_key()(full[j as int])) == has_key(
                views_of(kept@),
                al_key(),
                full[j as int].name,
            )) by {
                let kv = views_of(kept@);
                if seen.contains(al_key()(full[j as int])) {
                    let m = choose|m: int|
                        0 <= m < kv.map_values(al_key()).len() && kv.map_values(al_key())[m]
                            == al_key()(full[j as int]);
                    assert(al_key()(kv[m]) == full[j as int].name);
                }
                if has_key(kv, al_key(), full[j as int].name) {
                    let m = choose|m: int|
                        0 <= m < kv.len() && al_key()(#[trigger] kv[m]) == full[j as int].name;
                    assert(kv.map_values(al_key())[m] == al_key()(full[j as int]));
                    assert(kv.map_values(al_key()).contains(al_key()(full[j as int])));
                }
            }
        }
        let present = find_al(&kept, &alists[j].name);
        let ghost kv = views_of(kept@);
        match present {
            Some(_) => {
                proof {
                    assert(has_key(kv, al_key(), full[j as int].name));
                }
            },
            None => {
                proof {
                    assert(!has_key(kv, al_key(), full[j as int].name)) by {
                        if has_key(kv, al_key(), full[j as int].name) {
                            let m = choose|m: int|
                                0 <= m < kv.len() && al_key()(#[trigger] kv[m]) == full[j as int].name;
                            assert(kv[m].name == full[j as int].name);
                        }
                    }
                }
                kept.push(alists[j].clone());
                proof {
                    assert(views_of(kept@) =~= kv.push(full[j as int]));
                    assert(views_of(kept@).map_values(al_key()).to_set() =~= seen.insert(
                        al_key()(full[j as int]),
                    )) by {
                        assert(views_of(kept@).map_values(al_key()) =~= kv.map_values(
                            al_key(),
                        ).push(al_key()(full[j as int])));
                        broadcast use vstd::seq_lib::group_seq_properties;

                    }
                    assert(kv + (seq![full[j as int]] + dedup_by(
                        full.skip(j + 1),
                        al_key(),
                        seen.insert(al_key()(full[j as int])),
                    )) =~= views_of(kept@) + dedup_by(
                        full.skip(j + 1),
                        al_key(),
                        views_of(kept@).map_values(al_key()).to_set(),
                    ));
                }
            },
        }
        j = j + 1;
    }
    proof {
        assert(full.skip(full.len() as int) =~= Seq::<AlistView>::empty());
        assert(views_of(kept@) + dedup_by(
            full.skip(full.len() as int),
            al_key(),
            views_of(kept@).map_values(al_key()).to_set(),
        ) =~= views_of(kept@));
    }
    kept
}

/// A loaded curated-list document with duplicated names dropped, keeping
/// each name's first record, so the collection satisfies the store
/// invariant.
pub fn normalize_alist_doc(doc: DocState<Vec<Alist>>) -> (r: DocState<Vec<Alist>>)
    ensures
        match doc_model(doc) {
            DocModel::Absent => doc_model(r) is Absent,
            DocModel::Corrupt => doc_model(r) is Corrupt,
            DocModel::Present(s) => doc_model(r) == DocModel::Present(
                dedup_by(s, al_key(), Set::empty()),
            ),
        },
        match load_model(doc_model(r)) {
            Some(s) => unique_keys(s, al_key()),
            None => true,
        },
{
    match doc {
        DocState::Absent => DocState::Absent,
        DocState::Corrupt => DocState::Corrupt,
        DocState::Present(v) => DocState::Present(dedup_alists(&v)),
    }
}

/// Operations on the curated-list document store.
pub struct AlistOp {
    pub sm: StoreManager<Alist>,
}

impl AlistOp {
    /// The stored collection: the curated lists when the document is
    /// readable, nothing when it is corrupt.
    pub open spec fn contents(&self) -> Option<Seq<AlistView>> {
        load_model(self.sm.model())
    }

    /// The store's invariant: curated-list names are unique.
    pub open spec fn inv(&self) -> bool {
        match self.contents() {
            Some(s) => unique_keys(s, al_key()),
            None => true,
        }
    }

    pub fn new(sm: StoreManager<Alist>) -> (r: Self)
        ensures
            r.contents() == load_model(sm.model()),
    {
        AlistOp { sm }
    }

    /// Creates an empty curated list with the given name, stamped with the
    /// current time; fails if the name is taken, leaving the store unchanged.
    pub fn create(&mut self, name: String) -> (r: CoreResult<()>)
        requires
            old(self).inv(),
        ensures
            final(self).inv(),
            match old(self).contents() {
                None => r == Err::<(), CoreError>(CoreError::StorageCorrupt) && final(self).contents() == old(self).contents(),
                Some(s) => if has_key(s, al_key(), name@) {
                    r == Err::<(), CoreError>(CoreError::AlreadyExists) && final(self).contents() == old(self).contents()
                } else {
                    r is Ok && (final(self).contents() matches Some(s2) && s2.len() == s.len() + 1
                        && s2.subrange(0, s.len() as int) == s && s2.last().name == name@
                        && s2.last().elements.len() == 0)
                },
            },
    {
        let loaded = self.sm.load();
        let mut lists = match loaded {
            Ok(v) => v,
            Err(e) => {
                return Err(e);
            },
        };
        if find_al(&lists, &name).is_some() {
            return Err(CoreError::AlreadyExists);
        }
        let ghost s = views_of(lists@);
        let created_at = now_stamp();
        lists.push(Alist { name, created_at, elements: Vec::new() });
        proof {
            assert(views_of(lists@) =~= s.push(lists@.last()@));
            assert(views_of(lists@).subrange(0, s.len() as int) =~= s);
            assert(views_of(lists@).last().elements =~= Seq::<AelementView>::empty());
        }
        self.sm.save(&lists);
        Ok(())
    }

    /// Inserts a copy of the given curated list; fails if its name is
    /// taken, leaving the store unchanged.
    pub fn insert(&mut self, alist: &Alist) -> (r: CoreResult<()>)
        requires
            old(self).inv(),
        ensures
            final(self).inv(),
            match old(self).contents() {
                None => r == Err::<(), CoreError>(CoreError::StorageCorrupt) && final(self).contents() == old(self).contents(),
                Some(s) => if has_key(s, al_key(), alist@.name) {
                    r == Err::<(), CoreError>(CoreError::AlreadyExists) && final(self).contents() == old(self).contents()
                } else {
                    r is Ok && final(self).contents() == Some(s.push(alist@))
                },
            },
    {
        let loaded = self.sm.load();
        let mut lists = match loaded {
            Ok(v) => v,
            Err(e) => {
                return Err(e);
            },
        };
        if find_al(&lists, &alist.name).is_some() {
            return Err(CoreError::AlreadyExists);
        }
        let ghost s = views_of(lists@);
        lists.push(alist.clone());
        proof {
            assert(views_of(lists@) =~= s.push(alist@));
        }
        self.sm.save(&lists);
        Ok(())
    }

    /// Looks a curated list up by name; a copy of the stored record comes
    /// back.
    pub fn locate(&self, name: String) -> (r: CoreResult<Alist>)
        ensures
            match self.contents() {
                None => r == Err::<Alist, CoreError>(CoreError::StorageCorrupt),
                Some(s) => if has_key(s, al_key(), name@) {
                    r matches Ok(p) && p@.name == name@ && exists|k: int|
                        0 <= k < s.len() && #[trigger] s[k] == p@
                } else {
                    r == Err::<Alist, CoreError>(CoreError::NotFound)
                },
            },
    {
        let loaded = self.sm.load();
        let lists = match loaded {
            Ok(v) => v,
            Err(e) => {
                return Err(e);
            },
        };
        match find_al(&lists, &name) {
            Some(i) => Ok(lists[i].clone()),
            None => Err(CoreError::NotFound),
        }
    }

    /// Renames a curated list. Fails with AlreadyExists if any list,
    /// including the one being renamed, already bears the new name, and
    /// with NotFound if the old name is absent; in both cases the store is
    /// unchanged.
    pub fn rename(&mut self, old_name: String, new_name: String) -> (r: CoreResult<()>)
        requires
            old(self).inv(),
        ensures
            final(self).inv(),
            match old(self).contents() {
                None => r == Err::<(), CoreError>(CoreError::StorageCorrupt) && final(self).contents() == old(self).contents(),
                Some(s) => if has_key(s, al_key(), new_name@) {
                    r == Err::<(), CoreError>(CoreError::AlreadyExists) && final(self).contents() == old(self).contents()
                } else if !has_key(s, al_key(), old_name@) {
                    r == Err::<(), CoreError>(CoreError::NotFound) && final(self).contents() == old(self).contents()
                } else {
                    r is Ok && exists|i: int|
                        0 <= i < s.len() && (#[trigger] s[i]).name == old_name@ && final(self).contents()
                            == Some(
                            s.update(
                                i,
                                (AlistView {
                                    name: new_name@,
                                    created_at: s[i].created_at,
                                    elements: s[i].elements,
                                }),
                            ),
                        )
                },
            },
    {
        let loaded = self.sm.load();
        let mut lists = match loaded {
            Ok(v) => v,
            Err(e) => {
                return Err(e);
            },
        };
        if find_al(&lists, &new_name).is_some() {
            return Err(CoreError::AlreadyExists);
        }
        let found = find_al(&lists, &old_name);
        let i = match found {
            Some(i) => i,
            None => {
                return Err(CoreError::NotFound);
            },
        };
        let ghost s = views_of(lists@);
        let mut al = lists.remove(i);
        al.name = new_name;
        lists.insert(i, al);
        proof {
            assert(views_of(lists@) =~= s.update(
                i as int,
                (AlistView {
                    name: new_name@,
                    created_at: s[i as int].created_at,
                    elements: s[i as int].elements,
                }),
            ));
        }
        self.sm.save(&lists);
        Ok(())
    }

    /// Replaces the stored curated list bearing the given record's name;
    /// fails with NotFound if no list has that name.
    pub fn modify(&mut self, alist: &Alist) -> (r: CoreResult<()>)
        requires
            old(self).inv(),
        ensures
            final(self).inv(),
            match old(self).contents() {
                None => r == Err::<(), CoreError>(CoreError::StorageCorrupt) && final(self).contents() == old(self).contents(),
                Some(s) => if !has_key(s, al_key(), alist@.name) {
                    r == Err::<(), CoreError>(CoreError::NotFound) && final(self).contents() == old(self).contents()
                } else {
                    r is Ok && exists|i: int|
                        0 <= i < s.len() && (#[trigger] s[i]).name == alist@.name && final(self).contents()
                            == Some(s.update(i, alist@))
                },
            },
    {
        let loaded = self.sm.load();
        let mut lists = match loaded {
            Ok(v) => v,
            Err(e) => {
                return Err(e);
            },
        };
        let found = find_al(&lists, &alist.name);
        let i = match found {
            Some(i) => i,
            None => {
                return Err(CoreError::NotFound);
            },
        };
        let ghost s = views_of(lists@);
        let _ = lists.remove(i);
        lists.insert(i, alist.clone());
        proof {
            assert(views_of(lists@) =~= s.update(i as int, alist@));
        }
        self.sm.save(&lists);
        Ok(())
    }

    /// Removes the curated list with the given name; fails with NotFound if
    /// it is absent, leaving the store unchanged.
    pub fn remove(&mut self, name: String) -> (r: CoreResult<()>)
        requires
            old(self).inv(),
        ensures
            final(self).inv(),
            match old(self).contents() {
                None => r == Err::<(), CoreError>(CoreError::StorageCorrupt) && final(self).contents() == old(self).contents(),
                Some(s) => if !has_key(s, al_key(), name@) {
                    r == Err::<(), CoreError>(CoreError::NotFound) && final(self).contents() == old(self).contents()
                } else {
                    r is Ok && exists|i: int|
                        0 <= i < s.len() && (#[trigger] s[i]).name == name@ && final(self).contents()
                            == Some(s.remove(i))
                },
            },
    {
        let loaded = self.sm.load();
        let mut lists = match loaded {
            Ok(v) => v,
            Err(e) => {
                return Err(e);
            },
        };
        let found = find_al(&lists, &name);
        let i = match found {
            Some(i) => i,
            None => {
                return Err(CoreError::NotFound);
            },
        };
        let ghost s = views_of(lists@);
        let _ = lists.remove(i);
        proof {
            assert(views_of(lists@) =~= s.remove(i as int));
        }
        self.sm.save(&lists);
        Ok(())
    }

    /// Removes each named curated list in turn; if any name is absent the
    /// whole batch fails with NotFound and the store is unchanged.
    #[verifier::loop_isolation(false)]
    pub fn remove_batch(&mut self, names: Vec<String>) -> (r: CoreResult<()>)
        requires
            old(self).inv(),
        ensures
            final(self).inv(),
            match old(self).contents() {
                None => r == Err::<(), CoreError>(CoreError::StorageCorrupt) && final(self).contents() == old(self).contents(),
                Some(s) => match remove_keys(s, al_key(), views_of(names@)) {
                    Some(s2) => r is Ok && final(self).contents() == Some(s2),
                    None => r == Err::<(), CoreError>(CoreError::NotFound) && final(self).contents() == old(self).contents(),
                },
            },
    {
        let loaded = self.sm.load();
        let mut lists = match loaded {
            Ok(v) => v,
            Err(e) => {
                return Err(e);
            },
        };
        let ghost s0 = views_of(lists@);
        let ghost keys = views_of(names@);
        let mut k: usize = 0;
        proof {
            assert(keys.take(0) =~= Seq::<Seq<char>>::empty());
        }
        while k < names.len()
            invariant
                k <= names.len(),
                remove_keys(s0, al_key(), keys.take(k as int)) == Some(views_of(lists@)),
                unique_keys(s0, al_key()) ==> unique_keys(views_of(lists@), al_key()),
            decreases names.len() - k,
        {
            let ghost cur = views_of(lists@);
            proof {
                lemma_remove_keys_push(s0, al_key(), keys.take(k as int), keys[k as int]);
                assert(keys.take(k as int).push(keys[k as int]) =~= keys.take(k + 1));
            }
            let found = find_al(&lists, &names[k]);
            let i = match found {
                Some(i) => i,
                None => {
                    proof {
                        lemma_remove_keys_stays_none(s0, al_key(), keys, k + 1);
                    }
                    return Err(CoreError::NotFound);
                },
            };
            proof {
                lemma_first_key_index(cur, al_key(), keys[k as int]);
                assert(i as int == first_key_index(cur, al_key(), keys[k as int]));
            }
            let _ = lists.remove(i);
            proof {
                assert(views_of(lists@) =~= cur.remove(i as int));
            }
            k = k + 1;
        }
        proof {
            assert(keys.take(keys.len() as int) =~= keys);
        }
        self.sm.save(&lists);
        Ok(())
    }

    /// Appends one element to the named curated list; fails with NotFound
    /// if the list is absent.
    pub fn add_element(&mut self, alist_name: String, element: Aelement) -> (r: CoreResult<()>)
        requires
            old(self).inv(),
        ensures
            final(self).inv(),
            match old(self).contents() {
                None => r == Err::<(), CoreError>(CoreError::StorageCorrupt) && final(self).contents() == old(self).contents(),
                Some(s) => if !has_key(s, al_key(), alist_name@) {
                    r == Err::<(), CoreError>(CoreError::NotFound) && final(self).contents() == old(self).contents()
                } else {
                    r is Ok && exists|i: int|
                        0 <= i < s.len() && (#[trigger] s[i]).name == alist_name@ && final(self).contents()
                            == Some(
                            s.update(
                                i,
                                (AlistView {
                                    name: s[i].name,
                                    created_at: s[i].created_at,
                                    elements: s[i].elements.push(element@),
                                }),
                            ),
                        )
                },
            },
    {
        let loaded = self.sm.load();
        let mut lists = match loaded {
            Ok(v) => v,
            Err(e) => {
                return Err(e);
            },
        };
        let found = find_al(&lists, &alist_name);
        let i = match found {
            Some(i) => i,
            None => {
                return Err(CoreError::NotFound);
            },
        };
        let ghost s = views_of(lists@);
        let mut al = lists.remove(i);
        al.elements.push(element);
        lists.insert(i, al);
        proof {
            assert(views_of(lists@) =~~= s.update(
                i as int,
                (AlistView {
                    name: s[i as int].name,
                    created_at: s[i as int].created_at,
                    elements: s[i as int].elements.push(lists@[i as int].elements@.last()@),
                }),
            ));
        }
        self.sm.save(&lists);
        Ok(())
    }

    /// Removes the element at the given position from the named curated
    /// list; fails with IndexOutOfRange when the position is past the end,
    /// and with NotFound when the list is absent.
    pub fn remove_element(&mut self, alist_name: String, index: usize) -> (r: CoreResult<()>)
        requires
            old(self).inv(),
        ensures
            final(self).inv(),
            match old(self).contents() {
                None => r == Err::<(), CoreError>(CoreError::StorageCorrupt) && final(self).contents() == old(self).contents(),
                Some(s) => if !has_key(s, al_key(), alist_name@) {
                    r == Err::<(), CoreError>(CoreError::NotFound) && final(self).contents() == old(self).contents()
                } else if !(exists|i: int|
                    0 <= i < s.len() && (#[trigger] s[i]).name == alist_name@ && (index as int)
                        < s[i].elements.len()) {
                    r == Err::<(), CoreError>(CoreError::IndexOutOfRange) && final(self).contents() == old(self).contents()
                } else {
                    r is Ok && exists|i: int|
                        0 <= i < s.len() && (#[trigger] s[i]).name == alist_name@ && final(self).contents()
                            == Some(
                            s.update(
                                i,
                                (AlistView {
                                    name: s[i].name,
                                    created_at: s[i].created_at,
                                    elements: s[i].elements.remove(index as int),
                                }),
                            ),
                        )
                },
            },
    {
        let loaded = self.sm.load();
        let mut lists = match loaded {
            Ok(v) => v,
            Err(e) => {
                return Err(e);
            },
        };
        let found = find_al(&lists, &alist_name);
        let i = match found {
            Some(i) => i,
            None => {
                return Err(CoreError::NotFound);
            },
        };
        proof {
            assert(unique_keys(views_of(lists@), al_key()));
            assert forall|m: int|
                0 <= m < views_of(lists@).len() && (#[trigger] views_of(lists@)[m]).name
                    == alist_name@ implies m == i as int by {
                if m != i as int {
                    assert(al_key()(views_of(lists@)[m]) != al_key()(views_of(lists@)[i as int]));
                }
            }
        }
        if index >= lists[i].elements.len() {
            return Err(CoreError::IndexOutOfRange);
        }
        let ghost s = views_of(lists@);
        let mut al = lists.remove(i);
        let _ = al.elements.remove(index);
        lists.insert(i, al);
        proof {
            assert(views_of(lists@) =~~= s.update(
                i as int,
                (AlistView {
                    name: s[i as int].name,
                    created_at: s[i as int].created_at,
                    elements: s[i as int].elements.remove(index as int),
                }),
            ));
        }
        self.sm.save(&lists);
        Ok(())
    }

    /// Removes the elements at the listed positions, applied in descending
    /// order so earlier positions stay valid; if one is out of range when
    /// its turn comes the whole batch fails with IndexOutOfRange and the
    /// store is unchanged. NotFound when the list is absent.
    #[verifier::loop_isolation(false)]
    pub fn remove_elements(&mut self, alist_name: String, indices: Vec<usize>) -> (r: CoreResult<
        (),
    >)
        requires
            old(self).inv(),
        ensures
            final(self).inv(),
            match old(self).contents() {
                None => r == Err::<(), CoreError>(CoreError::StorageCorrupt) && final(self).contents() == old(self).contents(),
                Some(s) => if !has_key(s, al_key(), alist_name@) {
                    r == Err::<(), CoreError>(CoreError::NotFound) && final(self).contents() == old(self).contents()
                } else {
                    exists|i: int|
                        0 <= i < s.len() && (#[trigger] s[i]).name == alist_name@ && (match remove_at_each(
                            s[i].elements,
                            sort_desc(indices@),
                        ) {
                            Some(es2) => r is Ok && final(self).contents() == Some(
                                s.update(
                                    i,
                                    (AlistView {
                                        name: s[i].name,
                                        created_at: s[i].created_at,
                                        elements: es2,
                                    }),
                                ),
                            ),
                            None => (r matches Err(e) && e == CoreError::IndexOutOfRange) && final(self).contents() == old(self).contents(),
                        })
                },
            },
    {
        let loaded = self.sm.load();
        let mut lists = match loaded {
            Ok(v) => v,
            Err(e) => {
                return Err(e);
            },
        };
        let found = find_al(&lists, &alist_name);
        let i = match found {
            Some(i) => i,
            None => {
                return Err(CoreError::NotFound);
            },
        };
        let sorted = sorted_desc(&indices);
        let ghost s = views_of(lists@);
        let mut al = lists.remove(i);
        let ghost orig = al@.elements;
        let ghost keys = sorted@;
        let mut k: usize = 0;
        proof {
            assert(keys.take(0) =~= Seq::<usize>::empty());
        }
        while k < sorted.len()
            invariant
                k <= sorted.len(),
                keys == sorted@,
                remove_at_each(orig, keys.take(k as int)) == Some(al@.elements),
                al@.name == s[i as int].name,
                al@.created_at == s[i as int].created_at,
            decreases sorted.len() - k,
        {
            let ghost cur = al@.elements;
            proof {
                lemma_remove_at_each_push(orig, keys.take(k as int), keys[k as int]);
                assert(keys.take(k as int).push(keys[k as int]) =~= keys.take(k + 1));
            }
            let idx = sorted[k];
            if idx >= al.elements.len() {
                proof {
                    lemma_remove_at_each_stays_none(orig, keys, k + 1);
                }
                return Err(CoreError::IndexOutOfRange);
            }
            let _ = al.elements.remove(idx);
            proof {
                assert(al@.elements =~= cur.remove(idx as int));
            }
            k = k + 1;
        }
        proof {
            assert(keys.take(keys.len() as int) =~= keys);
        }
        let ghost newels = al@.elements;
        lists.insert(i, al);
        proof {
            assert(views_of(lists@) =~~= s.update(
                i as int,
                (AlistView {
                    name: s[i as int].name,
                    created_at: s[i as int].created_at,
                    elements: newels,
                }),
            ));
        }
        self.sm.save(&lists);
        Ok(())
    }

    /// Removes every element of the named curated list that denotes the
    /// same entity as the given one; fails with NotFound if the list is
    /// absent.
    pub fn remove_element_all(&mut self, alist_name: String, element: Aelement) -> (r: CoreResult<
        (),
    >)
        requires
            old(self).inv(),
        ensures
            final(self).inv(),
            match old(self).contents() {
                None => r == Err::<(), CoreError>(CoreError::StorageCorrupt) && final(self).contents() == old(self).contents(),
                Some(s) => if !has_key(s, al_key(), alist_name@) {
                    r == Err::<(), CoreError>(CoreError::NotFound) && final(self).contents() == old(self).contents()
                } else {
                    r is Ok && exists|i: int|
                        0 <= i < s.len() && (#[trigger] s[i]).name == alist_name@ && final(self).contents()
                            == Some(
                            s.update(
                                i,
                                (AlistView {
                                    name: s[i].name,
                                    created_at: s[i].created_at,
                                    elements: s[i].elements.filter(not_matching(element@)),
                                }),
                            ),
                        )
                },
            },
    {
        let loaded = self.sm.load();
        let mut lists = match loaded {
            Ok(v) => v,
            Err(e) => {
                return Err(e);
            },
        };
        let found = find_al(&lists, &alist_name);
        let i = match found {
            Some(i) => i,
            None => {
                return Err(CoreError::NotFound);
            },
        };
        let ghost s = views_of(lists@);
        let mut al = lists.remove(i);
        let ghost orig = al@.elements;
        let mut kept: Vec<Aelement> = Vec::new();
        let mut j: usize = 0;
        proof {
            reveal(Seq::filter);
            assert(orig.take(0) =~= Seq::<AelementView>::empty());
            assert(views_of(kept@) =~= orig.take(0).filter(not_matching(element@)));
        }
        while j < al.elements.len()
            invariant
                j <= al.elements.len(),
                orig == views_of(al.elements@),
                views_of(kept@) == orig.take(j as int).filter(not_matching(element@)),
            decreases al.elements.len() - j,
        {
            proof {
                reveal(Seq::filter);
                assert(orig.take(j + 1).drop_last() =~= orig.take(j as int));
                assert(orig.take(j + 1).last() == orig[j as int]);
            }
            let hit = aelem_matches_exec(&al.elements[j], &element);
            if !hit {
                let ghost prev = views_of(kept@);
                kept.push(al.elements[j].clone());
                proof {
                    assert(views_of(kept@) =~= prev.push(orig[j as int]));
                }
            }
            j = j + 1;
        }
        proof {
            assert(orig.take(orig.len() as int) =~= orig);
        }
        al.elements = kept;
        lists.insert(i, al);
        proof {
            assert(views_of(lists@) =~~= s.update(
                i as int,
                (AlistView {
                    name: s[i as int].name,
                    created_at: s[i as int].created_at,
                    elements: s[i as int].elements.filter(not_matching(element@)),
                }),
            ));
        }
        self.sm.save(&lists);
        Ok(())
    }

    /// Removes every element of the named curated list that denotes any of
    /// the given entities; fails with NotFound if the list is absent.
    pub fn remove_elements_all(&mut self, alist_name: String, elements: Vec<Aelement>) -> (r:
        CoreResult<()>)
        requires
            old(self).inv(),
        ensures
            final(self).inv(),
            match old(self).contents() {
                None => r == Err::<(), CoreError>(CoreError::StorageCorrupt) && final(self).contents() == old(self).contents(),
                Some(s) => if !has_key(s, al_key(), alist_name@) {
                    r == Err::<(), CoreError>(CoreError::NotFound) && final(self).contents() == old(self).contents()
                } else {
                    r is Ok && exists|i: int|
                        0 <= i < s.len() && (#[trigger] s[i]).name == alist_name@ && final(self).contents()
                            == Some(
                            s.update(
                                i,
                                (AlistView {
                                    name: s[i].name,
                                    created_at: s[i].created_at,
                                    elements: s[i].elements.filter(
                                        not_matching_any(views_of(elements@)),
                                    ),
                                }),
                            ),
                        )
                },
            },
    {
        let loaded = self.sm.load();
        let mut lists = match loaded {
            Ok(v) => v,
            Err(e) => {
                return Err(e);
            },
        };
        let found = find_al(&lists, &alist_name);
        let i = match found {
            Some(i) => i,
            None => {
                return Err(CoreError::NotFound);
            },
        };
        let ghost s = views_of(lists@);
        let mut al = lists.remove(i);
        let ghost orig = al@.elements;
        let mut kept: Vec<Aelement> = Vec::new();
        let mut j: usize = 0;
        proof {
            reveal(Seq::filter);
            assert(orig.take(0) =~= Seq::<AelementView>::empty());
            assert(views_of(kept@) =~= orig.take(0).filter(not_matching_any(views_of(elements@))));
        }
        while j < al.elements.len()
            invariant
                j <= al.elements.len(),
                orig == views_of(al.elements@),
                views_of(kept@) == orig.take(j as int).filter(not_matching_any(views_of(elements@))),
            decreases al.elements.len() - j,
        {
            proof {
                reveal(Seq::filter);
                assert(orig.take(j + 1).drop_last() =~= orig.take(j as int));
                assert(orig.take(j + 1).last() == orig[j as int]);
            }
            let hit = matches_any(&al.elements[j], &elements);
            if !hit {
                let ghost prev = views_of(kept@);
                kept.push(al.elements[j].clone());
                proof {
                    assert(views_of(kept@) =~= prev.push(orig[j as int]));
                }
            }
            j = j + 1;
        }
        proof {
            assert(orig.take(orig.len() as int) =~= orig);
        }
        al.elements = kept;
        lists.insert(i, al);
        proof {
            assert(views_of(lists@) =~~= s.update(
                i as int,
                (AlistView {
                    name: s[i as int].name,
                    created_at: s[i as int].created_at,
                    elements: s[i as int].elements.filter(not_matching_any(views_of(elements@))),
                }),
            ));
        }
        self.sm.save(&lists);
        Ok(())
    }

    /// Empties the named curated list's element sequence; fails with
    /// NotFound if the list is absent.
    pub fn clear(&mut self, alist_name: String) -> (r: CoreResult<()>)
        requires
            old(self).inv(),
        ensures
            final(self).inv(),
            match old(self).contents() {
                None => r == Err::<(), CoreError>(CoreError::StorageCorrupt) && final(self).contents() == old(self).contents(),
                Some(s) => if !has_key(s, al_key(), alist_name@) {
                    r == Err::<(), CoreError>(CoreError::NotFound) && final(self).contents() == old(self).contents()
                } else {
                    r is Ok && exists|i: int|
                        0 <= i < s.len() && (#[trigger] s[i]).name == alist_name@ && final(self).contents()
                            == Some(
                            s.update(
                                i,
                                (AlistView {
                                    name: s[i].name,
                                    created_at: s[i].created_at,
                                    elements: Seq::empty(),
                                }),
                            ),
                        )
                },
            },
    {
        let loaded = self.sm.load();
        let mut lists = match loaded {
            Ok(v) => v,
            Err(e) => {
                return Err(e);
            },
        };
        let found = find_al(&lists, &alist_name);
        let i = match found {
            Some(i) => i,
            None => {
                return Err(CoreError::NotFound);
            },
        };
        let ghost s = views_of(lists@);
        let mut al = lists.remove(i);
        al.elements = Vec::new();
        lists.insert(i, al);
        proof {
            assert(views_of(lists@) =~~= s.update(
                i as int,
                (AlistView {
                    name: s[i as int].name,
                    created_at: s[i as int].created_at,
                    elements: Seq::empty(),
                }),
            ));
        }
        self.sm.save(&lists);
        Ok(())
    }

    /// Replaces the store with the empty collection.
    pub fn clear_all(&mut self)
        ensures
            final(self).inv(),
            final(self).contents() == Some(Seq::<AlistView>::empty()),
    {
        let lists: Vec<Alist> = Vec::new();
        proof {
            assert(views_of(lists@) =~= Seq::<AlistView>::empty());
        }
        self.sm.save(&lists);
    }

    /// Hands back copies of all stored curated lists, in store order.
    pub fn list_all(&self) -> (r: CoreResult<Vec<Alist>>)
        ensures
            match self.contents() {
                None => r == Err::<Vec<Alist>, CoreError>(CoreError::StorageCorrupt),
                Some(s) => r matches Ok(v) && views_of(v@) == s,
            },
    {
        self.sm.load()
    }

    /// Every song path the named curated list's elements contribute, in
    /// encounter order; fails with NotFound if the list is absent.
    pub fn list_all_songs(&self, alist_name: String) -> (r: CoreResult<Vec<String>>)
        ensures
            match self.contents() {
                None => r == Err::<Vec<String>, CoreError>(CoreError::StorageCorrupt),
                Some(s) => if !has_key(s, al_key(), alist_name@) {
                    r == Err::<Vec<String>, CoreError>(CoreError::NotFound)
                } else {
                    r matches Ok(v) && exists|i: int|
                        0 <= i < s.len() && (#[trigger] s[i]).name == alist_name@ && views_of(v@)
                            == flat_songs(s[i].elements)
                },
            },
    {
        let loaded = self.sm.load();
        let lists = match loaded {
            Ok(v) => v,
            Err(e) => {
                return Err(e);
            },
        };
        let found = find_al(&lists, &alist_name);
        let i = match found {
            Some(i) => i,
            None => {
                return Err(CoreError::NotFound);
            },
        };
        let ghost es = views_of(lists@)[i as int].elements;
        let mut out: Vec<String> = Vec::new();
        let mut k: usize = 0;
        proof {
            assert(es.take(0) =~= Seq::<AelementView>::empty());
            assert(views_of(out@) =~= flat_songs(es.take(0)));
        }
        while k < lists[i].elements.len()
            invariant
                (i as int) < lists@.len(),
                k <= lists@[i as int].elements@.len(),
                es == views_of(lists@)[i as int].elements,
                es.len() == lists@[i as int].elements@.len(),
                views_of(out@) == flat_songs(es.take(k as int)),
            decreases lists@[i as int].elements@.len() - k,
        {
            proof {
                assert(es.take(k + 1).drop_last() =~= es.take(k as int));
                assert(es.take(k + 1).last() == es[k as int]);
                assert(es[k as int] == lists@[i as int].elements@[k as int]@);
            }
            append_element_songs(&mut out, &lists[i].elements[k]);
            k = k + 1;
        }
        proof {
            assert(es.take(es.len() as int) =~= es);
        }
        Ok(out)
    }

    /// Copies of the named curated list's elements, in order; fails with
    /// NotFound if the list is absent.
    pub fn list_all_elements(&self, alist_name: String) -> (r: CoreResult<Vec<Aelement>>)
        ensures
            match self.contents() {
                None => r == Err::<Vec<Aelement>, CoreError>(CoreError::StorageCorrupt),
                Some(s) => if !has_key(s, al_key(), alist_name@) {
                    r == Err::<Vec<Aelement>, CoreError>(CoreError::NotFound)
                } else {
                    r matches Ok(v) && exists|i: int|
                        0 <= i < s.len() && (#[trigger] s[i]).name == alist_name@ && views_of(v@)
                            == s[i].elements
                },
            },
    {
        let loaded = self.sm.load();
        let lists = match loaded {
            Ok(v) => v,
            Err(e) => {
                return Err(e);
            },
        };
        let found = find_al(&lists, &alist_name);
        let i = match found {
            Some(i) => i,
            None => {
                return Err(CoreError::NotFound);
            },
        };
        let out = crate::model::dup_vec(&lists[i].elements);
        proof {
            assert(views_of(lists@[i as int].elements@) =~= views_of(lists@)[i as int].elements);
        }
        Ok(out)
    }

    /// Freezes the named curated list: flattens every element's song paths,
    /// in encounter order, into a new playlist bearing the list's name and
    /// creation time, and removes the list from the store in the same
    /// operation. Fails with NotFound if the list is absent.
    pub fn freeze(&mut self, alist_name: String) -> (r: CoreResult<Playlist>)
        requires
            old(self).inv(),
        ensures
            final(self).inv(),
            match old(self).contents() {
                None => r == Err::<Playlist, CoreError>(CoreError::StorageCorrupt) && final(self).contents() == old(self).contents(),
                Some(s) => if !has_key(s, al_key(), alist_name@) {
                    r == Err::<Playlist, CoreError>(CoreError::NotFound) && final(self).contents() == old(self).contents()
                } else {
                    exists|i: int|
                        0 <= i < s.len() && (#[trigger] s[i]).name == alist_name@ && final(self).contents()
                            == Some(s.remove(i)) && (r matches Ok(p) && p@.name == s[i].name
                            && p@.created_at == s[i].created_at && p@.songs == flat_songs(
                            s[i].elements,
                        ))
                },
            },
    {
        let loaded = self.sm.load();
        let mut lists = match loaded {
            Ok(v) => v,
            Err(e) => {
                return Err(e);
            },
        };
        let found = find_al(&lists, &alist_name);
        let i = match found {
            Some(i) => i,
            None => {
                return Err(CoreError::NotFound);
            },
        };
        let ghost s = views_of(lists@);
        let al = lists.remove(i);
        proof {
            assert(views_of(lists@) =~= s.remove(i as int));
            assert(al@ == s[i as int]);
        }
        let ghost es = al@.elements;
        let mut songs: Vec<String> = Vec::new();
        let mut k: usize = 0;
        proof {
            assert(es.take(0) =~= Seq::<AelementView>::empty());
            assert(views_of(songs@) =~= flat_songs(es.take(0)));
        }
        while k < al.elements.len()
            invariant
                k <= al.elements@.len(),
                es == al@.elements,
                es.len() == al.elements@.len(),
                views_of(songs@) == flat_songs(es.take(k as int)),
            decreases al.elements@.len() - k,
        {
            proof {
                assert(es.take(k + 1).drop_last() =~= es.take(k as int));
                assert(es.take(k + 1).last() == es[k as int]);
                assert(es[k as int] == al.elements@[k as int]@);
            }
            append_element_songs(&mut songs, &al.elements[k]);
            k = k + 1;
        }
        proof {
            assert(es.take(es.len() as int) =~= es);
        }
        self.sm.save(&lists);
        Ok(Playlist { name: al.name, created_at: al.created_at, songs })
    }
}

} // verus!
