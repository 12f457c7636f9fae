//! Operations on the playlist store: creation, lookup, rename, removal and
//! song-sequence edits, all preserving the uniqueness of playlist names.

use vstd::prelude::*;
use crate::clock::now_stamp;
use crate::entity::list::Playlist;
use crate::entity::list::PlaylistView;
use crate::entity::song::Song;
use crate::entity::song::song_paths;
use crate::error::CoreError;
use crate::error::CoreResult;
use crate::model::contains_string;
use crate::model::dedup_by;
use crate::model::has_key;
use crate::model::unique_keys;
use crate::model::lemma_remove_at_each_push;
use crate::model::lemma_remove_at_each_stays_none;
use crate::model::remove_at_each;
use crate::model::sort_desc;
use crate::model::sorted_desc;
use crate::model::lemma_views_of_index;
use crate::model::not_in;
use crate::model::str_id;
use crate::model::lemma_views_of_len;
use crate::model::views_of;
use crate::sm::DocModel;
use crate::sm::DocState;
use crate::sm::StoreManager;
use crate::sm::doc_model;
use crate::sm::load_model;

verus! {

broadcast use lemma_views_of_index, lemma_views_of_len;

/// Whether some playlist in the sequence bears the given name.
pub open spec fn has_pl(s: Seq<PlaylistView>, n: Seq<char>) -> bool {
    exists|k: int| 0 <= k < s.len() && (#[trigger] s[k]).name == n
}

/// No two playlists share a name.
pub open spec fn unique_pl(s: Seq<PlaylistView>) -> bool {
    forall|i: int, j: int| 0 <= i < j < s.len() ==> (#[trigger] s[i]).name != (#[trigger] s[j]).name
}

/// The key a playlist is stored under: its name.
pub open spec fn pl_key() -> spec_fn(PlaylistView) -> Seq<char> {
    |x: PlaylistView| x.name
}

/// The position of the first playlist with the given name.
pub open spec fn first_pl_index(s: Seq<PlaylistView>, n: Seq<char>) -> int
    decreases s.len(),
{
    if s.len() == 0 {
        0
    } else if s[0].name == n {
        0
    } else {
        1 + first_pl_index(s.skip(1), n)
    }
}

/// Removing the named playlists one after another, each by its first
/// occurrence; nothing if one of the names is absent when its turn comes.
pub open spec fn remove_names(s: Seq<PlaylistView>, names: Seq<Seq<char>>) -> Option<
    Seq<PlaylistView>,
>
    decreases names.len(),
{
    if names.len() == 0 {
        Some(s)
    } else if has_pl(s, names[0]) {
        remove_names(s.remove(first_pl_index(s, names[0])), names.skip(1))
    } else {
        None
    }
}

proof fn lemma_first_pl_index(s: Seq<PlaylistView>, n: Seq<char>)
    requires
        has_pl(s, n),
    ensures
        0 <= first_pl_index(s, n) < s.len(),
        s[first_pl_index(s, n)].name == n,
        forall|j: int| 0 <= j < first_pl_index(s, n) ==> (#[trigger] s[j]).name != n,
    decreases s.len(),
{
    if s.len() > 0 && s[0].name != n {
        assert(has_pl(s.skip(1), n)) by {
            let k = choose|k: int| 0 <= k < s.len() && (#[trigger] s[k]).name == n;
            assert(s.skip(1)[k - 1].name == n);
        }
        lemma_first_pl_index(s.skip(1), n);
        assert forall|j: int| 0 <= j < first_pl_index(s, n) implies (#[trigger] s[j]).name != n by {
            if j > 0 {
                assert(s.skip(1)[j - 1].name != n);
            }
        }
    }
}

proof fn lemma_remove_names_push(s: Seq<PlaylistView>, names: Seq<Seq<char>>, n: Seq<char>)
    ensures
        remove_names(s, names.push(n)) == (match remove_names(s, names) {
            Some(t) => if has_pl(t, n) {
                Some(t.remove(first_pl_index(t, n)))
            } else {
                None::<Seq<PlaylistView>>
            },
            None => None::<Seq<PlaylistView>>,
        }),
    decreases names.len(),
{
    if names.len() == 0 {
        assert(names.push(n)[0] == n);
        assert(names.push(n).skip(1) =~= Seq::<Seq<char>>::empty());
        assert(remove_names(s, names) == Some(s));
        if has_pl(s, n) {
            assert(remove_names(s, names.push(n)) == remove_names(
                s.remove(first_pl_index(s, n)),
                names.push(n).skip(1),
            ));
            assert(remove_names(s.remove(first_pl_index(s, n)), Seq::<Seq<char>>::empty())
                == Some(s.remove(first_pl_index(s, n))));
        } else {
            assert(remove_names(s, names.push(n)) is None);
        }
    } else {
        assert(names.push(n)[0] == names[0]);
        assert(names.push(n).skip(1) =~= names.skip(1).push(n));
        if has_pl(s, names[0]) {
            let s1 = s.remove(first_pl_index(s, names[0]));
            lemma_remove_names_push(s1, names.skip(1), n);
            assert(remove_names(s, names.push(n)) == remove_names(s1, names.skip(1).push(n)));
            assert(remove_names(s, names) == remove_names(s1, names.skip(1)));
        } else {
            assert(remove_names(s, names.push(n)) is None);
            assert(remove_names(s, names) is None);
        }
    }
}

proof fn lemma_remove_names_stays_none(s: Seq<PlaylistView>, names: Seq<Seq<char>>, k: int)
    requires
        1 <= k <= names.len(),
        remove_names(s, names.take(k)) is None,
    ensures
        remove_names(s, names) is None,
    decreases names.len(),
{
    assert(names.take(k)[0] == names[0]);
    if has_pl(s, names[0]) {
        assert(names.take(k).skip(1) =~= names.skip(1).take(k - 1));
        if k == 1 {
        } else {
            lemma_remove_names_stays_none(
                s.remove(first_pl_index(s, names[0])),
                names.skip(1),
                k - 1,
            );
        }
    }
}

/// Keeps the paths that are not in the exclusion list, in order.
fn filter_out_paths(songs: &Vec<String>, excl: &Vec<String>) -> (r: Vec<String>)
    ensures
        views_of(r@) == views_of(songs@).filter(not_in(views_of(excl@))),
{
    let ghost pred = not_in(views_of(excl@));
    let mut r: Vec<String> = Vec::new();
    let mut j: usize = 0;
    proof {
        reveal(Seq::filter);
        assert(views_of(songs@).take(0) =~= Seq::<Seq<char>>::empty());
        assert(views_of(r@) =~= views_of(songs@).take(0).filter(pred));
    }
    while j < songs.len()
        invariant
            j <= songs.len(),
            views_of(r@) == views_of(songs@).take(j as int).filter(
                not_in(views_of(excl@)),
            ),
        decreases songs.len() - j,
    {
        proof {
            reveal(Seq::filter);
            assert(views_of(songs@).take(j + 1).drop_last() =~= views_of(songs@).take(j as int));
            assert(views_of(songs@).take(j + 1).last() == views_of(songs@)[j as int]);
        }
        let keep = !contains_string(excl, &songs[j]);
        if keep {
            r.push(songs[j].clone());
            proof {
                assert(views_of(r@) =~= views_of(songs@).take(j as int).filter(
                    not_in(views_of(excl@)),
                ).push(views_of(songs@)[j as int]));
            }
        }
        j = j + 1;
    }
    proof {
        assert(views_of(songs@).take(songs@.len() as int) =~= views_of(songs@));
    }
    r
}

/// Copies of the given records with later records repeating an earlier
/// record's name dropped, so names come out unique.
pub fn dedup_playlists(playlists: &Vec<Playlist>) -> (r: Vec<Playlist>)
    ensures
        views_of(r@) == dedup_by(views_of(playlists@), pl_key(), Set::empty()),
        unique_keys(views_of(r@), pl_key()),
{
    let ghost full = views_of(playlists@);
    let mut kept: Vec<Playlist> = Vec::new();
    let mut j: usize = 0;
    proof {
        assert(full.skip(0) =~= full);
        assert(views_of(kept@) =~= Seq::<PlaylistView>::empty());
        assert(views_of(kept@).map_values(pl_key()).to_set() =~= Set::<Seq<char>>::empty());
        assert(views_of(kept@) + dedup_by(
            full,
            pl_key(),
            views_of(kept@).map_values(pl_key()).to_set(),
        ) =~= dedup_by(full, pl_key(), Set::empty()));
    }
    while j < playlists.len()
        invariant
            j <= playlists.len(),
            full == views_of(playlists@),
            unique_keys(views_of(kept@), pl_key()),
            forall|m: int|
                0 <= m < views_of(kept@).len() ==> views_of(kept@).map_values(
                    pl_key(),
                ).to_set().contains(pl_key()(#[trigger] views_of(kept@)[m])),
            dedup_by(full, pl_key(), Set::<Seq<char>>::empty()) == views_of(kept@) + dedup_by(
                full.skip(j as int),
                pl_key(),
                views_of(kept@).map_values(pl_key()).to_set(),
            ),
        decreases playlists.len() - j,
    {
        let ghost seen = views_of(kept@).map_values(pl_key()).to_set();
        let ghost rest = full.skip(j as int);
        proof {
            assert(rest[0] == full[j as int]);
            assert(rest.skip(1) =~= full.skip(j + 1));
            assert(seen.contains(pl_key()(full[j as int])) == has_key(
                views_of(kept@),
                pl_key(),
                full[j as int].name,
            )) by {
                let kv = views_of(kept@);
                if seen.contains(pl_key()(full[j as int])) {
                    let m = choose|m: int|
                        0 <= m < kv.map_values(pl_key()).len() && kv.map_values(pl_key())[m]
                            == pl_key()(full[j as int]);
                    assert(pl_key()(kv[m]) == full[j as int].name);
                }
                if has_key(kv, pl_key(), full[j as int].name) {
                    let m = choose|m: int|
                        0 <= m < kv.len() && pl_key()(#[trigger] kv[m]) == full[j as int].name;
                    assert(kv.map_values(pl_key())[m] == pl_key()(full[j as int]));
                    assert(kv.map_values(pl_key()).contains(pl_key()(full[j as int])));
                }
            }
        }
        let present = find_pl(&kept, &playlists[j].name);
        let ghost kv = views_of(kept@);
        match present {
            Some(_) => {
                proof {
                    assert(has_key(kv, pl_key(), full[j as int].name));
                }
            },
            None => {
                proof {
                    assert(!has_key(kv, pl_key(), full[j as int].name)) by {
                        if has_key(kv, pl_key(), full[j as int].name) {
                            let m = choose|m: int|
                                0 <= m < kv.len() && pl_key()(#[trigger] kv[m]) == full[j as int].name;
                            assert(kv[m].name == full[j as int].name);
                        }
                    }
                }
                kept.push(playlists[j].clone());
                proof {
                    assert(views_of(kept@) =~= kv.push(full[j as int]));
                    assert(views_of(kept@).map_values(pl_key()).to_set() =~= seen.insert(
                        pl_key()(full[j as int]),
                    )) by {
                        assert(views_of(kept@).map_values(pl_key()) =~= kv.map_values(
                            pl_key(),
                        ).push(pl_key()(full[j as int])));
                        broadcast use vstd::seq_lib::group_seq_properties;

                    }
                    assert(kv + (seq![full[j as int]] + dedup_by(
                        full.skip(j + 1),
                        pl_key(),
                        seen.insert(pl_key()(full[j as int])),
                    )) =~= views_of(kept@) + dedup_by(
                        full.skip(j + 1),
                        pl_key(),
                        views_of(kept@).map_values(pl_key()).to_set(),
                    ));
                }
            },
        }
        j = j + 1;
    }
    proof {
        assert(full.skip(full.len() as int) =~= Seq::<PlaylistView>::empty());
        assert(views_of(kept@) + dedup_by(
            full.skip(full.len() as int),
            pl_key(),
            views_of(kept@).map_values(pl_key()).to_set(),
        ) =~= views_of(kept@));
    }
    kept
}

/// A loaded playlist document with duplicated names dropped, keeping each
/// name's first record, so the collection satisfies the store invariant.
pub fn normalize_playlist_doc(doc: DocState<Vec<Playlist>>) -> (r: DocState<Vec<Playlist>>)
    ensures
        match doc_model(doc) {
            DocModel::Absent => doc_model(r) is Absent,
            DocModel::Corrupt => doc_model(r) is Corrupt,
            DocModel::Present(s) => doc_model(r) == DocModel::Present(
                dedup_by(s, pl_key(), Set::empty()),
            ),
        },
        match load_model(doc_model(r)) {
            Some(s) => unique_pl(s),
            None => true,
        },
{
    let out = match doc {
        DocState::Absent => DocState::Absent,
        DocState::Corrupt => DocState::Corrupt,
        DocState::Present(v) => DocState::Present(dedup_playlists(&v)),
    };
    proof {
        match load_model(doc_model(out)) {
            Some(s) => {
                assert forall|i: int, j: int|
                    0 <= i < j < s.len() implies (#[trigger] s[i]).name != (#[trigger] s[j]).name by {
                    if unique_keys(s, pl_key()) {
                        assert(pl_key()(s[i]) != pl_key()(s[j]));
                    }
                }
            },
            None => {},
        }
    }
    out
}

/// Operations on the playlist document store.
pub struct PlaylistOp {
    pub sm: StoreManager<Playlist>,
}

/// Finds the first playlist with the given name.
fn find_pl(v: &Vec<Playlist>, name: &String) -> (r: Option<usize>)
    ensures
        match r {
            Some(i) => (i as int) < v@.len() && views_of(v@)[i as int].name == name@ && forall|
                j: int,
            | 0 <= j < i ==> (#[trigger] views_of(v@)[j]).name != name@,
            None => !has_pl(views_of(v@), name@),
        },
{
    let mut i: usize = 0;
    while i < v.len()
        invariant
            i <= v.len(),
            forall|j: int| 0 <= j < i ==> (#[trigger] views_of(v@)[j]).name != name@,
        decreases v.len() - i,
    {
        if name.eq(&v[i].name) {
            return Some(i);
        }
        i = i + 1;
    }
    None
}

impl PlaylistOp {
    /// The stored collection: the playlists when the document is readable,
    /// nothing when it is corrupt.
    pub open spec fn contents(&self) -> Option<Seq<PlaylistView>> {
        load_model(self.sm.model())
    }

    /// The store's invariant: playlist names are unique.
    pub open spec fn inv(&self) -> bool {
        match self.contents() {
            Some(s) => unique_pl(s),
            None => true,
        }
    }

    pub fn new(sm: StoreManager<Playlist>) -> (r: Self)
        ensures
            r.contents() == load_model(sm.model()),
    {
        PlaylistOp { sm }
    }

    /// Creates an empty playlist with the given name, stamped with the
    /// current time; fails if the name is taken, leaving the store unchanged.
    pub fn create(&mut self, name: String) -> (r: CoreResult<()>)
        requires
            old(self).inv(),
        ensures
            final(self).inv(),
            match old(self).contents() {
                None => r == Err::<(), CoreError>(CoreError::StorageCorrupt) && final(self).contents() == old(self).contents(),
                Some(s) => if has_pl(s, name@) {
                    r == Err::<(), CoreError>(CoreError::AlreadyExists) && final(self).contents()
                        == old(self).contents()
                } else {
                    r is Ok && (final(self).contents() matches Some(s2) && s2.len() == s.len() + 1
                        && s2.subrange(0, s.len() as int) == s && s2.last().name == name@
                        && s2.last().songs.len() == 0)
                },
            },
    {
        let loaded = self.sm.load();
        let mut lists = match loaded {
            Ok(v) => v,
            Err(e) => {
                return Err(e);
            },
        };
        if find_pl(&lists, &name).is_some() {
            return Err(CoreError::AlreadyExists);
        }
        let ghost s = views_of(lists@);
        let created_at = now_stamp();
        lists.push(Playlist { name, created_at, songs: Vec::new() });
        proof {
            assert(views_of(lists@) =~= s.push(lists@.last()@));
            assert(views_of(lists@).subrange(0, s.len() as int) =~= s);
            assert(views_of(lists@).last().songs =~= Seq::<Seq<char>>::empty());
        }
        self.sm.save(&lists);
        Ok(())
    }

    /// Inserts a copy of the given playlist; fails if its name is taken,
    /// leaving the store unchanged.
    pub fn insert(&mut self, playlist: &Playlist) -> (r: CoreResult<()>)
        requires
            old(self).inv(),
        ensures
            final(self).inv(),
            match old(self).contents() {
                None => r == Err::<(), CoreError>(CoreError::StorageCorrupt) && final(self).contents() == old(self).contents(),
                Some(s) => if has_pl(s, playlist@.name) {
                    r == Err::<(), CoreError>(CoreError::AlreadyExists) && final(self).contents()
                        == old(self).contents()
                } else {
                    r is Ok && final(self).contents() == Some(s.push(playlist@))
                },
            },
    {
        let loaded = self.sm.load();
        let mut lists = match loaded {
            Ok(v) => v,
            Err(e) => {
                return Err(e);
            },
        };
        if find_pl(&lists, &playlist.name).is_some() {
            return Err(CoreError::AlreadyExists);
        }
        let ghost s = views_of(lists@);
        lists.push(playlist.clone());
        proof {
            assert(views_of(lists@) =~= s.push(playlist@));
        }
        self.sm.save(&lists);
        Ok(())
    }

    /// Looks a playlist up by name; a copy of the stored record comes back.
    pub fn locate(&self, name: String) -> (r: CoreResult<Playlist>)
        ensures
            match self.contents() {
                None => r == Err::<Playlist, CoreError>(CoreError::StorageCorrupt),
                Some(s) => if has_pl(s, name@) {
                    r matches Ok(p) && p@.name == name@ && exists|k: int|
                        0 <= k < s.len() && #[trigger] s[k] == p@
                } else {
                    r == Err::<Playlist, CoreError>(CoreError::NotFound)
                },
            },
    {
        let loaded = self.sm.load();
        let lists = match loaded {
            Ok(v) => v,
            Err(e) => {
                return Err(e);
            },
        };
        match find_pl(&lists, &name) {
            Some(i) => Ok(lists[i].clone()),
            None => Err(CoreError::NotFound),
        }
    }

    /// Renames a playlist. Fails with NotFound if the old name is absent and
    /// with AlreadyExists if the new name belongs to another playlist; in
    /// both cases the store is unchanged.
    pub fn rename(&mut self, old_name: String, new_name: String) -> (r: CoreResult<()>)
        requires
            old(self).inv(),
        ensures
            final(self).inv(),
            match old(self).contents() {
                None => r == Err::<(), CoreError>(CoreError::StorageCorrupt) && final(self).contents() == old(self).contents(),
                Some(s) => if !has_pl(s, old_name@) {
                    r == Err::<(), CoreError>(CoreError::NotFound) && final(self).contents() == old(self).contents()
                } else if old_name@ != new_name@ && has_pl(s, new_name@) {
                    r == Err::<(), CoreError>(CoreError::AlreadyExists) && final(self).contents()
                        == old(self).contents()
                } else {
                    r is Ok && exists|i: int|
                        0 <= i < s.len() && (#[trigger] s[i]).name == old_name@ && final(self).contents() == Some(
                            s.update(
                                i,
                                (PlaylistView {
                                    name: new_name@,
                                    created_at: s[i].created_at,
                                    songs: s[i].songs,
                                }),
                            ),
                        )
                },
            },
    {
        let loaded = self.sm.load();
        let mut lists = match loaded {
            Ok(v) => v,
            Err(e) => {
                return Err(e);
            },
        };
        let found = find_pl(&lists, &old_name);
        let i = match found {
            Some(i) => i,
            None => {
                return Err(CoreError::NotFound);
            },
        };
        if !old_name.eq(&new_name) {
            if find_pl(&lists, &new_name).is_some() {
                return Err(CoreError::AlreadyExists);
            }
        }
        let ghost s = views_of(lists@);
        let mut pl = lists.remove(i);
        pl.name = new_name;
        lists.insert(i, pl);
        proof {
            assert(views_of(lists@) =~~= s.update(
                i as int,
                (PlaylistView {
                    name: new_name@,
                    created_at: s[i as int].created_at,
                    songs: s[i as int].songs,
                }),
            ));
        }
        self.sm.save(&lists);
        Ok(())
    }

    /// Replaces the stored playlist bearing the given record's name; fails
    /// with NotFound if no playlist has that name.
    pub fn modify(&mut self, playlist: &Playlist) -> (r: CoreResult<()>)
        requires
            old(self).inv(),
        ensures
            final(self).inv(),
            match old(self).contents() {
                None => r == Err::<(), CoreError>(CoreError::StorageCorrupt) && final(self).contents() == old(self).contents(),
                Some(s) => if !has_pl(s, playlist@.name) {
                    r == Err::<(), CoreError>(CoreError::NotFound) && final(self).contents() == old(self).contents()
                } else {
                    r is Ok && exists|i: int|
                        0 <= i < s.len() && (#[trigger] s[i]).name == playlist@.name && final(self).contents() == Some(s.update(i, playlist@))
                },
            },
    {
        let loaded = self.sm.load();
        let mut lists = match loaded {
            Ok(v) => v,
            Err(e) => {
                return Err(e);
            },
        };
        let found = find_pl(&lists, &playlist.name);
        let i = match found {
            Some(i) => i,
            None => {
                return Err(CoreError::NotFound);
            },
        };
        let ghost s = views_of(lists@);
        let _ = lists.remove(i);
        lists.insert(i, playlist.clone());
        proof {
            assert(views_of(lists@) =~~= s.update(i as int, playlist@));
        }
        self.sm.save(&lists);
        Ok(())
    }

    /// Removes the playlist with the given name; fails with NotFound if it
    /// is absent, leaving the store unchanged.
    pub fn remove(&mut self, name: String) -> (r: CoreResult<()>)
        requires
            old(self).inv(),
        ensures
            final(self).inv(),
            match old(self).contents() {
                None => r == Err::<(), CoreError>(CoreError::StorageCorrupt) && final(self).contents() == old(self).contents(),
                Some(s) => if !has_pl(s, name@) {
                    r == Err::<(), CoreError>(CoreError::NotFound) && final(self).contents() == old(self).contents()
                } else {
                    r is Ok && exists|i: int|
                        0 <= i < s.len() && (#[trigger] s[i]).name == name@ && final(self).contents() == Some(s.remove(i))
                },
            },
    {
        let loaded = self.sm.load();
        let mut lists = match loaded {
            Ok(v) => v,
            Err(e) => {
                return Err(e);
            },
        };
        let found = find_pl(&lists, &name);
        let i = match found {
            Some(i) => i,
            None => {
                return Err(CoreError::NotFound);
            },
        };
        let ghost s = views_of(lists@);
        let _ = lists.remove(i);
        proof {
            assert(views_of(lists@) =~= s.remove(i as int));
        }
        self.sm.save(&lists);
        Ok(())
    }

    /// Hands back copies of all stored playlists, in store order.
    pub fn list_all(&self) -> (r: CoreResult<Vec<Playlist>>)
        ensures
            match self.contents() {
                None => r == Err::<Vec<Playlist>, CoreError>(CoreError::StorageCorrupt),
                Some(s) => r matches Ok(v) && views_of(v@) == s,
            },
    {
        self.sm.load()
    }

    /// Removes each named playlist in turn; if any name is absent the whole
    /// batch fails with NotFound and the store is unchanged.
    #[verifier::loop_isolation(false)]
    pub fn remove_batch(&mut self, names: Vec<String>) -> (r: CoreResult<()>)
        requires
            old(self).inv(),
        ensures
            final(self).inv(),
            match old(self).contents() {
                None => r == Err::<(), CoreError>(CoreError::StorageCorrupt) && final(self).contents() == old(self).contents(),
                Some(s) => match remove_names(s, views_of(names@)) {
                    Some(s2) => r is Ok && final(self).contents() == Some(s2),
                    None => r == Err::<(), CoreError>(CoreError::NotFound) && final(self).contents() == old(self).contents(),
                },
            },
    {
        let loaded = self.sm.load();
        let mut lists = match loaded {
            Ok(v) => v,
            Err(e) => {
                return Err(e);
            },
        };
        let ghost s0 = views_of(lists@);
        let mut k: usize = 0;
        proof {
            assert(views_of(names@).take(0) =~= Seq::<Seq<char>>::empty());
        }
        while k < names.len()
            invariant
                k <= names.len(),
                remove_names(s0, views_of(names@).take(k as int)) == Some(views_of(lists@)),
                unique_pl(s0) ==> unique_pl(views_of(lists@)),
                unique_pl(s0),
            decreases names.len() - k,
        {
            let ghost cur = views_of(lists@);
            let ghost taken = views_of(names@).take(k as int);
            proof {
                lemma_remove_names_push(s0, taken, names@[k as int]@);
                assert(taken.push(names@[k as int]@) =~= views_of(names@).take(k + 1));
            }
            let found = find_pl(&lists, &names[k]);
            let i = match found {
                Some(i) => i,
                None => {
                    proof {
                        lemma_remove_names_stays_none(s0, views_of(names@), k + 1);
                    }
                    return Err(CoreError::NotFound);
                },
            };
            proof {
                lemma_first_pl_index(cur, names@[k as int]@);
                assert(i as int == first_pl_index(cur, names@[k as int]@));
            }
            let _ = lists.remove(i);
            proof {
                assert(views_of(lists@) =~= cur.remove(i as int));
            }
            k = k + 1;
        }
        proof {
            assert(views_of(names@).take(names@.len() as int) =~= views_of(names@));
        }
        self.sm.save(&lists);
        Ok(())
    }

    /// Appends the given songs' paths to the named playlist, in order;
    /// fails with NotFound if the playlist is absent.
    pub fn add_songs(&mut self, name: String, songs: Vec<Song>) -> (r: CoreResult<()>)
        requires
            old(self).inv(),
        ensures
            final(self).inv(),
            match old(self).contents() {
                None => r == Err::<(), CoreError>(CoreError::StorageCorrupt) && final(self).contents() == old(self).contents(),
                Some(s) => if !has_pl(s, name@) {
                    r == Err::<(), CoreError>(CoreError::NotFound) && final(self).contents() == old(self).contents()
                } else {
                    r is Ok && exists|i: int|
                        0 <= i < s.len() && (#[trigger] s[i]).name == name@ && final(self).contents()
                            == Some(
                            s.update(
                                i,
                                (PlaylistView {
                                    name: s[i].name,
                                    created_at: s[i].created_at,
                                    songs: s[i].songs + song_paths(views_of(songs@)),
                                }),
                            ),
                        )
                },
            },
    {
        let loaded = self.sm.load();
        let mut lists = match loaded {
            Ok(v) => v,
            Err(e) => {
                return Err(e);
            },
        };
        let found = find_pl(&lists, &name);
        let i = match found {
            Some(i) => i,
            None => {
                return Err(CoreError::NotFound);
            },
        };
        let ghost s = views_of(lists@);
        let mut pl = lists.remove(i);
        let ghost orig = pl@.songs;
        let mut j: usize = 0;
        proof {
            assert(orig + song_paths(views_of(songs@)).take(0) =~= orig);
        }
        while j < songs.len()
            invariant
                j <= songs.len(),
                pl@.songs == orig + song_paths(views_of(songs@)).take(j as int),
                pl@.name == s[i as int].name,
                pl@.created_at == s[i as int].created_at,
                0 <= (i as int) < s.len(),
            decreases songs.len() - j,
        {
            let ghost prev = pl@.songs;
            pl.songs.push(songs[j].path.clone());
            proof {
                let ghost sp = song_paths(views_of(songs@));
                assert(sp[j as int] == songs@[j as int]@.path);
                assert(pl@.songs =~= prev.push(songs@[j as int]@.path));
                assert(sp.take(j + 1) =~= sp.take(j as int).push(sp[j as int]));
                assert((orig + sp.take(j as int)).push(sp[j as int]) =~= orig + sp.take(j + 1));
            }
            j = j + 1;
        }
        lists.insert(i, pl);
        proof {
            assert(song_paths(views_of(songs@)).take(songs@.len() as int) =~= song_paths(
                views_of(songs@),
            ));
            assert(views_of(lists@) =~~= s.update(
                i as int,
                (PlaylistView {
                    name: s[i as int].name,
                    created_at: s[i as int].created_at,
                    songs: s[i as int].songs + song_paths(views_of(songs@)),
                }),
            ));
        }
        self.sm.save(&lists);
        Ok(())
    }

    /// Drops later duplicates from the named playlist's song sequence,
    /// keeping each path's first occurrence.
    pub fn unique(&mut self, name: String) -> (r: CoreResult<()>)
        requires
            old(self).inv(),
        ensures
            final(self).inv(),
            match old(self).contents() {
                None => r == Err::<(), CoreError>(CoreError::StorageCorrupt) && final(self).contents() == old(self).contents(),
                Some(s) => if !has_pl(s, name@) {
                    r == Err::<(), CoreError>(CoreError::NotFound) && final(self).contents() == old(self).contents()
                } else {
                    r is Ok && exists|i: int|
                        0 <= i < s.len() && (#[trigger] s[i]).name == name@ && final(self).contents()
                            == Some(
                            s.update(
                                i,
                                (PlaylistView {
                                    name: s[i].name,
                                    created_at: s[i].created_at,
                                    songs: dedup_by(
                                        s[i].songs,
                                        str_id(),
                                        Set::empty(),
                                    ),
                                }),
                            ),
                        )
                },
            },
    {
        let loaded = self.sm.load();
        let mut lists = match loaded {
            Ok(v) => v,
            Err(e) => {
                return Err(e);
            },
        };
        let found = find_pl(&lists, &name);
        let i = match found {
            Some(i) => i,
            None => {
                return Err(CoreError::NotFound);
            },
        };
        let ghost s = views_of(lists@);
        let mut pl = lists.remove(i);
        let ghost orig = pl@.songs;
        let mut kept: Vec<String> = Vec::new();
        let mut j: usize = 0;
        proof {
            assert(orig.skip(0) =~= orig);
            assert(views_of(kept@) =~= Seq::<Seq<char>>::empty());
            assert(views_of(kept@).to_set() =~= Set::<Seq<char>>::empty());
            assert(views_of(kept@) + dedup_by(orig, str_id(), views_of(kept@).to_set())
                =~= dedup_by(orig, str_id(), Set::empty()));
        }
        while j < pl.songs.len()
            invariant
                j <= pl.songs.len(),
                orig == views_of(pl.songs@),
                dedup_by(orig, str_id(), Set::<Seq<char>>::empty()) == views_of(kept@)
                    + dedup_by(
                    orig.skip(j as int),
                    str_id(),
                    views_of(kept@).to_set(),
                ),
            decreases pl.songs.len() - j,
        {
            let ghost seen = views_of(kept@).to_set();
            let ghost rest = orig.skip(j as int);
            proof {
                broadcast use vstd::seq_lib::group_seq_properties;

                assert(rest[0] == orig[j as int]);
                assert(rest.skip(1) =~= orig.skip(j + 1));
                assert(seen.contains(orig[j as int]) == views_of(kept@).contains(orig[j as int]));
            }
            let ghost kv = views_of(kept@);
            let present = contains_string(&kept, &pl.songs[j]);
            if !present {
                kept.push(pl.songs[j].clone());
                proof {
                    broadcast use vstd::seq_lib::group_seq_properties;

                    assert(views_of(kept@) =~= kv.push(orig[j as int]));
                    assert(views_of(kept@).to_set() =~= seen.insert(orig[j as int]));
                    assert(kv + (seq![orig[j as int]] + dedup_by(
                        orig.skip(j + 1),
                        str_id(),
                        seen.insert(orig[j as int]),
                    )) =~= views_of(kept@) + dedup_by(
                        orig.skip(j + 1),
                        str_id(),
                        views_of(kept@).to_set(),
                    ));
                }
            }
            j = j + 1;
        }
        proof {
            assert(orig.skip(orig.len() as int) =~= Seq::<Seq<char>>::empty());
            assert(views_of(kept@) + dedup_by(
                orig.skip(orig.len() as int),
                str_id(),
                views_of(kept@).to_set(),
            ) =~= views_of(kept@));
        }
        pl.songs = kept;
        lists.insert(i, pl);
        proof {
            assert(views_of(lists@) =~~= s.update(
                i as int,
                (PlaylistView {
                    name: s[i as int].name,
                    created_at: s[i as int].created_at,
                    songs: dedup_by(s[i as int].songs, str_id(), Set::empty()),
                }),
            ));
        }
        self.sm.save(&lists);
        Ok(())
    }

    /// Removes every occurrence of the given songs' paths from the named
    /// playlist; fails with NotFound if the playlist is absent.
    pub fn remove_songs_all(&mut self, name: String, songs: Vec<Song>) -> (r: CoreResult<()>)
        requires
            old(self).inv(),
        ensures
            final(self).inv(),
            match old(self).contents() {
                None => r == Err::<(), CoreError>(CoreError::StorageCorrupt) && final(self).contents() == old(self).contents(),
                Some(s) => if !has_pl(s, name@) {
                    r == Err::<(), CoreError>(CoreError::NotFound) && final(self).contents() == old(self).contents()
                } else {
                    r is Ok && exists|i: int|
                        0 <= i < s.len() && (#[trigger] s[i]).name == name@ && final(self).contents()
                            == Some(
                            s.update(
                                i,
                                (PlaylistView {
                                    name: s[i].name,
                                    created_at: s[i].created_at,
                                    songs: s[i].songs.filter(
                                        not_in(song_paths(views_of(songs@))),
                                    ),
                                }),
                            ),
                        )
                },
            },
    {
        let loaded = self.sm.load();
        let mut lists = match loaded {
            Ok(v) => v,
            Err(e) => {
                return Err(e);
            },
        };
        let found = find_pl(&lists, &name);
        let i = match found {
            Some(i) => i,
            None => {
                return Err(CoreError::NotFound);
            },
        };
        let mut excl: Vec<String> = Vec::new();
        let mut j: usize = 0;
        while j < songs.len()
            invariant
                j <= songs.len(),
                views_of(excl@) =~= song_paths(views_of(songs@)).take(j as int),
            decreases songs.len() - j,
        {
            let ghost prev = views_of(excl@);
            excl.push(songs[j].path.clone());
            proof {
                let ghost sp = song_paths(views_of(songs@));
                assert(sp[j as int] == songs@[j as int]@.path);
                assert(views_of(excl@) =~= prev.push(songs@[j as int]@.path));
                assert(sp.take(j + 1) =~= sp.take(j as int).push(sp[j as int]));
                assert(views_of(excl@) =~= sp.take(j + 1));
            }
            j = j + 1;
        }
        proof {
            assert(song_paths(views_of(songs@)).take(songs@.len() as int) =~= song_paths(
                views_of(songs@),
            ));
        }
        let ghost s = views_of(lists@);
        let mut pl = lists.remove(i);
        let filtered = filter_out_paths(&pl.songs, &excl);
        pl.songs = filtered;
        lists.insert(i, pl);
        proof {
            assert(views_of(lists@) =~~= s.update(
                i as int,
                (PlaylistView {
                    name: s[i as int].name,
                    created_at: s[i as int].created_at,
                    songs: s[i as int].songs.filter(
                        not_in(song_paths(views_of(songs@))),
                    ),
                }),
            ));
        }
        self.sm.save(&lists);
        Ok(())
    }

    /// Removes every occurrence of the given paths from every playlist.
    pub fn remove_song_path_all(&mut self, paths: Vec<String>) -> (r: CoreResult<()>)
        requires
            old(self).inv(),
        ensures
            final(self).inv(),
            match old(self).contents() {
                None => r == Err::<(), CoreError>(CoreError::StorageCorrupt) && final(self).contents() == old(self).contents(),
                Some(s) => r is Ok && (final(self).contents() matches Some(s2) && s2.len()
                    == s.len() && forall|k: int|
                    0 <= k < s.len() ==> (#[trigger] s2[k]).name == s[k].name && s2[k].created_at
                        == s[k].created_at && s2[k].songs == s[k].songs.filter(
                        not_in(views_of(paths@)),
                    )),
            },
    {
        let loaded = self.sm.load();
        let lists = match loaded {
            Ok(v) => v,
            Err(e) => {
                return Err(e);
            },
        };
        let ghost s = views_of(lists@);
        let mut out: Vec<Playlist> = Vec::new();
        let mut k: usize = 0;
        while k < lists.len()
            invariant
                k <= lists.len(),
                s == views_of(lists@),
                out@.len() == k,
                forall|m: int|
                    0 <= m < k ==> (#[trigger] out@[m])@.name == s[m].name && out@[m]@.created_at
                        == s[m].created_at && out@[m]@.songs == s[m].songs.filter(
                        not_in(views_of(paths@)),
                    ),
            decreases lists.len() - k,
        {
            let filtered = filter_out_paths(&lists[k].songs, &paths);
            out.push(
                Playlist {
                    name: lists[k].name.clone(),
                    created_at: lists[k].created_at.clone(),
                    songs: filtered,
                },
            );
            k = k + 1;
        }
        self.sm.save(&out);
        Ok(())
    }

    /// Removes the songs at the listed positions from the named playlist,
    /// applied in descending order so earlier positions stay valid; if one
    /// is out of range when its turn comes the whole batch fails with
    /// IndexOutOfRange and the store is unchanged. NotFound when the
    /// playlist is absent.
    #[verifier::loop_isolation(false)]
    pub fn remove_songs(&mut self, name: String, index: Vec<usize>) -> (r: CoreResult<()>)
        requires
            old(self).inv(),
        ensures
            final(self).inv(),
            match old(self).contents() {
                None => r == Err::<(), CoreError>(CoreError::StorageCorrupt) && final(self).contents() == old(self).contents(),
                Some(s) => if !has_pl(s, name@) {
                    r == Err::<(), CoreError>(CoreError::NotFound) && final(self).contents() == old(self).contents()
                } else {
                    exists|i: int|
                        0 <= i < s.len() && (#[trigger] s[i]).name == name@ && (match remove_at_each(
                            s[i].songs,
                            sort_desc(index@),
                        ) {
                            Some(songs2) => r is Ok && final(self).contents() == Some(
                                s.update(
                                    i,
                                    (PlaylistView {
                                        name: s[i].name,
                                        created_at: s[i].created_at,
                                        songs: songs2,
                                    }),
                                ),
                            ),
                            None => (r matches Err(e) && e == CoreError::IndexOutOfRange) && final(self).contents() == old(self).contents(),
                        })
                },
            },
    {
        let loaded = self.sm.load();
        let mut lists = match loaded {
            Ok(v) => v,
            Err(e) => {
                return Err(e);
            },
        };
        let found = find_pl(&lists, &name);
        let i = match found {
            Some(i) => i,
            None => {
                return Err(CoreError::NotFound);
            },
        };
        let sorted = sorted_desc(&index);
        let ghost s = views_of(lists@);
        let mut pl = lists.remove(i);
        let ghost orig = pl@.songs;
        let ghost keys = sorted@;
        let mut k: usize = 0;
        proof {
            assert(keys.take(0) =~= Seq::<usize>::empty());
        }
        while k < sorted.len()
            invariant
                k <= sorted.len(),
                keys == sorted@,
                remove_at_each(orig, keys.take(k as int)) == Some(pl@.songs),
                pl@.name == s[i as int].name,
                pl@.created_at == s[i as int].created_at,
            decreases sorted.len() - k,
        {
            let ghost cur = pl@.songs;
            proof {
                lemma_remove_at_each_push(orig, keys.take(k as int), keys[k as int]);
                assert(keys.take(k as int).push(keys[k as int]) =~= keys.take(k + 1));
            }
            let idx = sorted[k];
            if idx >= pl.songs.len() {
                proof {
                    lemma_remove_at_each_stays_none(orig, keys, k + 1);
                }
                return Err(CoreError::IndexOutOfRange);
            }
            let _ = pl.songs.remove(idx);
            proof {
                assert(pl@.songs =~= cur.remove(idx as int));
            }
            k = k + 1;
        }
        proof {
            assert(keys.take(keys.len() as int) =~= keys);
        }
        let ghost newsongs = pl@.songs;
        lists.insert(i, pl);
        proof {
            assert(views_of(lists@) =~~= s.update(
                i as int,
                (PlaylistView {
                    name: s[i as int].name,
                    created_at: s[i as int].created_at,
                    songs: newsongs,
                }),
            ));
        }
        self.sm.save(&lists);
        Ok(())
    }

    /// Empties the named playlist's song sequence; fails with NotFound if
    /// the playlist is absent.
    pub fn clear_songs(&mut self, name: String) -> (r: CoreResult<()>)
        requires
            old(self).inv(),
        ensures
            final(self).inv(),
            match old(self).contents() {
                None => r == Err::<(), CoreError>(CoreError::StorageCorrupt) && final(self).contents() == old(self).contents(),
                Some(s) => if !has_pl(s, name@) {
                    r == Err::<(), CoreError>(CoreError::NotFound) && final(self).contents() == old(self).contents()
                } else {
                    r is Ok && exists|i: int|
                        0 <= i < s.len() && (#[trigger] s[i]).name == name@ && final(self).contents()
                            == Some(
                            s.update(
                                i,
                                (PlaylistView {
                                    name: s[i].name,
                                    created_at: s[i].created_at,
                                    songs: Seq::empty(),
                                }),
                            ),
                        )
                },
            },
    {
        let loaded = self.sm.load();
        let mut lists = match loaded {
            Ok(v) => v,
            Err(e) => {
                return Err(e);
            },
        };
        let found = find_pl(&lists, &name);
        let i = match found {
            Some(i) => i,
            None => {
                return Err(CoreError::NotFound);
            },
        };
        let ghost s = views_of(lists@);
        let mut pl = lists.remove(i);
        pl.songs = Vec::new();
        lists.insert(i, pl);
        proof {
            assert(views_of(lists@) =~~= s.update(
                i as int,
                (PlaylistView {
                    name: s[i as int].name,
                    created_at: s[i as int].created_at,
                    songs: Seq::empty(),
                }),
            ));
        }
        self.sm.save(&lists);
        Ok(())
    }

    /// Replaces the store with the empty collection.
    pub fn clear_all(&mut self)
        ensures
            final(self).inv(),
            final(self).contents() == Some(Seq::<PlaylistView>::empty()),
    {
        let lists: Vec<Playlist> = Vec::new();
        proof {
            assert(views_of(lists@) =~= Seq::<PlaylistView>::empty());
        }
        self.sm.save(&lists);
    }
}

} // verus!
