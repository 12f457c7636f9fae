//! Operations on the song store: listing and filtering, set-semantics
//! insertion keyed by path, removal and replacement, all preserving the
//! uniqueness of song paths.

use vstd::prelude::*;
use crate::entity::song::Song;
use crate::entity::song::SongView;
use crate::entity::song::song_key;
use crate::error::CoreError;
use crate::error::CoreResult;
use crate::model::first_key_index;
use crate::model::has_key;
use crate::model::lemma_first_key_index;
use crate::model::lemma_remove_keys_push;
use crate::model::lemma_remove_keys_stays_none;
use crate::model::lemma_views_of_index;
use crate::model::lemma_views_of_len;
use crate::model::remove_keys;
use crate::model::unique_keys;
use crate::model::views_of;
use crate::sm::DocModel;
use crate::sm::DocState;
use crate::sm::StoreManager;
use crate::sm::doc_model;
use crate::sm::load_model;
use crate::text::str_eq;

verus! {

broadcast use lemma_views_of_index, lemma_views_of_len;

/// The songs credited to exactly the given artist.
pub open spec fn by_artist(a: Seq<char>) -> spec_fn(SongView) -> bool {
    |x: SongView| x.artist == Some(a)
}

/// The songs with no artist tag.
pub open spec fn no_artist() -> spec_fn(SongView) -> bool {
    |x: SongView| x.artist is None
}

/// The songs credited to the given artist on the given release.
pub open spec fn by_artist_release(a: Seq<char>, t: Seq<char>) -> spec_fn(SongView) -> bool {
    |x: SongView| x.artist == Some(a) && x.release == Some(t)
}

/// The songs with no release tag.
pub open spec fn no_release() -> spec_fn(SongView) -> bool {
    |x: SongView| x.release is None
}

/// Inserting records with set semantics: a record whose path is already
/// present is dropped, the rest are appended in order.
pub open spec fn add_songs_spec(s: Seq<SongView>, new: Seq<SongView>) -> Seq<SongView>
    decreases new.len(),
{
    if new.len() == 0 {
        s
    } else {
        let s1 = if has_key(s, song_key(), new[0].path) {
            s
        } else {
            s.push(new[0])
        };
        add_songs_spec(s1, new.skip(1))
    }
}

pub proof fn lemma_add_songs_push(s: Seq<SongView>, new: Seq<SongView>, x: SongView)
    ensures
        add_songs_spec(s, new.push(x)) == (if has_key(
            add_songs_spec(s, new),
            song_key(),
            x.path,
        ) {
            add_songs_spec(s, new)
        } else {
            add_songs_spec(s, new).push(x)
        }),
    decreases new.len(),
{
    if new.len() == 0 {
        assert(new.push(x)[0] == x);
        assert(new.push(x).skip(1) =~= Seq::<SongView>::empty());
        assert(add_songs_spec(s, new) == s);
        if has_key(s, song_key(), x.path) {
            assert(add_songs_spec(s, new.push(x)) == add_songs_spec(
                s,
                new.push(x).skip(1),
            ));
        } else {
            assert(add_songs_spec(s, new.push(x)) == add_songs_spec(
                s.push(x),
                new.push(x).skip(1),
            ));
        }
    } else {
        assert(new.push(x)[0] == new[0]);
        assert(new.push(x).skip(1) =~= new.skip(1).push(x));
        let s1 = if has_key(s, song_key(), new[0].path) {
            s
        } else {
            s.push(new[0])
        };
        lemma_add_songs_push(s1, new.skip(1), x);
    }
}

/// Finds the first song stored under the given path.
fn find_song(v: &Vec<Song>, path: &String) -> (r: Option<usize>)
    ensures
        match r {
            Some(i) => (i as int) < v@.len() && views_of(v@)[i as int].path == path@ && forall|
                j: int,
            | 0 <= j < i ==> (#[trigger] views_of(v@)[j]).path != path@,
            None => !has_key(views_of(v@), song_key(), path@),
        },
{
    let mut i: usize = 0;
    while i < v.len()
        invariant
            i <= v.len(),
            forall|j: int| 0 <= j < i ==> (#[trigger] views_of(v@)[j]).path != path@,
        decreases v.len() - i,
    {
        if path.eq(&v[i].path) {
            return Some(i);
        }
        i = i + 1;
    }
    proof {
        assert forall|k: int| 0 <= k < views_of(v@).len() implies song_key()(
            #[trigger] views_of(v@)[k],
        ) != path@ by {
            assert(views_of(v@)[k].path != path@);
        }
    }
    None
}

/// Copies of the given records with later records repeating an earlier
/// record's path dropped, so paths come out unique.
pub fn dedup_songs(songs: &Vec<Song>) -> (r: Vec<Song>)
    ensures
        views_of(r@) == crate::model::dedup_by(views_of(songs@), song_key(), Set::empty()),
        unique_keys(views_of(r@), song_key()),
{
    let ghost full = views_of(songs@);
    let mut kept: Vec<Song> = Vec::new();
    let mut j: usize = 0;
    proof {
        assert(full.skip(0) =~= full);
        assert(views_of(kept@) =~= Seq::<SongView>::empty());
        assert(views_of(kept@).map_values(song_key()).to_set() =~= Set::<Seq<char>>::empty());
        assert(views_of(kept@) + crate::model::dedup_by(
            full,
            song_key(),
            views_of(kept@).map_values(song_key()).to_set(),
        ) =~= crate::model::dedup_by(full, song_key(), Set::empty()));
    }
    while j < songs.len()
        invariant
            j <= songs.len(),
            full == views_of(songs@),
            unique_keys(views_of(kept@), song_key()),
            forall|m: int|
                0 <= m < views_of(kept@).len() ==> views_of(kept@).map_values(
                    song_key(),
                ).to_set().contains(song_key()(#[trigger] views_of(kept@)[m])),
            crate::model::dedup_by(full, song_key(), Set::<Seq<char>>::empty()) == views_of(
                kept@,
            ) + crate::model::dedup_by(
                full.skip(j as int),
                song_key(),
                views_of(kept@).map_values(song_key()).to_set(),
            ),
        decreases songs.len() - j,
    {
        let ghost seen = views_of(kept@).map_values(song_key()).to_set();
        let ghost rest = full.skip(j as int);
        proof {
            assert(rest[0] == full[j as int]);
            assert(rest.skip(1) =~= full.skip(j + 1));
            assert(seen.contains(song_key()(full[j as int])) == has_key(
                views_of(kept@),
                song_key(),
                full[j as int].path,
            )) by {
                let kv = views_of(kept@);
                if seen.contains(song_key()(full[j as int])) {
                    let m = choose|m: int|
                        0 <= m < kv.map_values(song_key()).len() && kv.map_values(song_key())[m]
                            == song_key()(full[j as int]);
                    assert(song_key()(kv[m]) == full[j as int].path);
                }
                if has_key(kv, song_key(), full[j as int].path) {
                    let m = choose|m: int|
                        0 <= m < kv.len() && song_key()(#[trigger] kv[m]) == full[j as int].path;
                    assert(kv.map_values(song_key())[m] == song_key()(full[j as int]));
                    assert(kv.map_values(song_key()).contains(song_key()(full[j as int])));
                }
            }
        }
        let present = find_song(&kept, &songs[j].path);
        let ghost kv = views_of(kept@);
        if present.is_none() {
            kept.push(songs[j].clone());
            proof {
                assert(views_of(kept@) =~= kv.push(full[j as int]));
                assert(views_of(kept@).map_values(song_key()).to_set() =~= seen.insert(
                    song_key()(full[j as int]),
                )) by {
                    assert(views_of(kept@).map_values(song_key()) =~= kv.map_values(
                        song_key(),
                    ).push(song_key()(full[j as int])));
                    broadcast use vstd::seq_lib::group_seq_properties;

                }
                assert(kv + (seq![full[j as int]] + crate::model::dedup_by(
                    full.skip(j + 1),
                    song_key(),
                    seen.insert(song_key()(full[j as int])),
                )) =~= views_of(kept@) + crate::model::dedup_by(
                    full.skip(j + 1),
                    song_key(),
                    views_of(kept@).map_values(song_key()).to_set(),
                ));
            }
        }
        j = j + 1;
    }
    proof {
        assert(full.skip(full.len() as int) =~= Seq::<SongView>::empty());
        assert(views_of(kept@) + crate::model::dedup_by(
            full.skip(full.len() as int),
            song_key(),
            views_of(kept@).map_values(song_key()).to_set(),
        ) =~= views_of(kept@));
    }
    kept

}

/// A loaded song document with duplicated paths dropped, keeping each
/// path's first record, so the collection satisfies the store invariant.
pub fn normalize_song_doc(doc: DocState<Vec<Song>>) -> (r: DocState<Vec<Song>>)
    ensures
        match doc_model(doc) {
            DocModel::Absent => doc_model(r) is Absent,
            DocModel::Corrupt => doc_model(r) is Corrupt,
            DocModel::Present(s) => doc_model(r) == DocModel::Present(
                crate::model::dedup_by(s, song_key(), Set::empty()),
            ),
        },
        match load_model(doc_model(r)) {
            Some(s) => unique_keys(s, song_key()),
            None => true,
        },
{
    match doc {
        DocState::Absent => DocState::Absent,
        DocState::Corrupt => DocState::Corrupt,
        DocState::Present(v) => DocState::Present(dedup_songs(&v)),
    }
}

/// Operations on the song document store.
pub struct SongOp {
    pub sm: StoreManager<Song>,
}

impl SongOp {
    /// The stored collection: the songs when the document is readable,
    /// nothing when it is corrupt.
    pub open spec fn contents(&self) -> Option<Seq<SongView>> {
        load_model(self.sm.model())
    }

    /// The store's invariant: song paths are unique.
    pub open spec fn inv(&self) -> bool {
        match self.contents() {
            Some(s) => unique_keys(s, song_key()),
            None => true,
        }
    }

    pub fn new(sm: StoreManager<Song>) -> (r: Self)
        ensures
            r.contents() == load_model(sm.model()),
    {
        SongOp { sm }
    }

    /// Hands back copies of all stored songs, in store order.
    pub fn list_all(&self) -> (r: CoreResult<Vec<Song>>)
        ensures
            match self.contents() {
                None => r == Err::<Vec<Song>, CoreError>(CoreError::StorageCorrupt),
                Some(s) => r matches Ok(v) && views_of(v@) == s,
            },
    {
        self.sm.load()
    }

    /// Looks a song up by path; a copy of the stored record comes back.
    pub fn locate(&self, file: &String) -> (r: CoreResult<Song>)
        ensures
            match self.contents() {
                None => r == Err::<Song, CoreError>(CoreError::StorageCorrupt),
                Some(s) => if has_key(s, song_key(), file@) {
                    r matches Ok(p) && p@.path == file@ && exists|k: int|
                        0 <= k < s.len() && #[trigger] s[k] == p@
                } else {
                    r == Err::<Song, CoreError>(CoreError::NotFound)
                },
            },
    {
        let loaded = self.sm.load();
        let songs = match loaded {
            Ok(v) => v,
            Err(e) => {
                return Err(e);
            },
        };
        match find_song(&songs, file) {
            Some(i) => Ok(songs[i].clone()),
            None => Err(CoreError::NotFound),
        }
    }

    /// The stored songs credited to exactly the given artist, in store order.
    pub fn list_by_artist(&self, artist: &str) -> (r: CoreResult<Vec<Song>>)
        ensures
            match self.contents() {
                None => r == Err::<Vec<Song>, CoreError>(CoreError::StorageCorrupt),
                Some(s) => r matches Ok(v) && views_of(v@) == s.filter(by_artist(artist@)),
            },
    {
        let loaded = self.sm.load();
        let songs = match loaded {
            Ok(v) => v,
            Err(e) => {
                return Err(e);
            },
        };
        let ghost s = views_of(songs@);
        let ghost pred = by_artist(artist@);
        let mut out: Vec<Song> = Vec::new();
        let mut j: usize = 0;
        proof {
            reveal(Seq::filter);
            assert(s.take(0) =~= Seq::<SongView>::empty());
            assert(views_of(out@) =~= s.take(0).filter(pred));
        }
        while j < songs.len()
            invariant
                j <= songs.len(),
                s == views_of(songs@),
                views_of(out@) == s.take(j as int).filter(by_artist(artist@)),
            decreases songs.len() - j,
        {
            proof {
                reveal(Seq::filter);
                assert(s.take(j + 1).drop_last() =~= s.take(j as int));
                assert(s.take(j + 1).last() == s[j as int]);
            }
            let keep = match &songs[j].artist {
                Some(a) => str_eq(a.as_str(), artist),
                None => false,
            };
            if keep {
                let ghost prev = views_of(out@);
                out.push(songs[j].clone());
                proof {
                    assert(views_of(out@) =~= prev.push(s[j as int]));
                }
            }
            j = j + 1;
        }
        proof {
            assert(s.take(songs@.len() as int) =~= s);
        }
        Ok(out)
    }

    /// The stored songs with no artist tag, in store order.
    pub fn list_unknown_artist(&self) -> (r: CoreResult<Vec<Song>>)
        ensures
            match self.contents() {
                None => r == Err::<Vec<Song>, CoreError>(CoreError::StorageCorrupt),
                Some(s) => r matches Ok(v) && views_of(v@) == s.filter(no_artist()),
            },
    {
        let loaded = self.sm.load();
        let songs = match loaded {
            Ok(v) => v,
            Err(e) => {
                return Err(e);
            },
        };
        let ghost s = views_of(songs@);
        let mut out: Vec<Song> = Vec::new();
        let mut j: usize = 0;
        proof {
            reveal(Seq::filter);
            assert(s.take(0) =~= Seq::<SongView>::empty());
            assert(views_of(out@) =~= s.take(0).filter(no_artist()));
        }
        while j < songs.len()
            invariant
                j <= songs.len(),
                s == views_of(songs@),
                views_of(out@) == s.take(j as int).filter(no_artist()),
            decreases songs.len() - j,
        {
            proof {
                reveal(Seq::filter);
                assert(s.take(j + 1).drop_last() =~= s.take(j as int));
                assert(s.take(j + 1).last() == s[j as int]);
            }
            let keep = songs[j].artist.is_none();
            if keep {
                let ghost prev = views_of(out@);
                out.push(songs[j].clone());
                proof {
                    assert(views_of(out@) =~= prev.push(s[j as int]));
                }
            }
            j = j + 1;
        }
        proof {
            assert(s.take(songs@.len() as int) =~= s);
        }
        Ok(out)
    }

    /// The stored songs credited to the given artist on the given release.
    pub fn list_by_artist_release(&self, artist: &str, release: &str) -> (r: CoreResult<Vec<Song>>)
        ensures
            match self.contents() {
                None => r == Err::<Vec<Song>, CoreError>(CoreError::StorageCorrupt),
                Some(s) => r matches Ok(v) && views_of(v@) == s.filter(
                    by_artist_release(artist@, release@),
                ),
            },
    {
        let loaded = self.sm.load();
        let songs = match loaded {
            Ok(v) => v,
            Err(e) => {
                return Err(e);
            },
        };
        let ghost s = views_of(songs@);
        let mut out: Vec<Song> = Vec::new();
        let mut j: usize = 0;
        proof {
            reveal(Seq::filter);
            assert(s.take(0) =~= Seq::<SongView>::empty());
            assert(views_of(out@) =~= s.take(0).filter(by_artist_release(artist@, release@)));
        }
        while j < songs.len()
            invariant
                j <= songs.len(),
                s == views_of(songs@),
                views_of(out@) == s.take(j as int).filter(by_artist_release(artist@, release@)),
            decreases songs.len() - j,
        {
            proof {
                reveal(Seq::filter);
                assert(s.take(j + 1).drop_last() =~= s.take(j as int));
                assert(s.take(j + 1).last() == s[j as int]);
            }
            let artist_hit = match &songs[j].artist {
                Some(a) => str_eq(a.as_str(), artist),
                None => false,
            };
            let release_hit = match &songs[j].release {
                Some(t) => str_eq(t.as_str(), release),
                None => false,
            };
            if artist_hit && release_hit {
                let ghost prev = views_of(out@);
                out.push(songs[j].clone());
                proof {
                    assert(views_of(out@) =~= prev.push(s[j as int]));
                }
            }
            j = j + 1;
        }
        proof {
            assert(s.take(songs@.len() as int) =~= s);
        }
        Ok(out)
    }

    /// The stored songs with no release tag, in store order.
    pub fn list_unknown_release(&self) -> (r: CoreResult<Vec<Song>>)
        ensures
            match self.contents() {
                None => r == Err::<Vec<Song>, CoreError>(CoreError::StorageCorrupt),
                Some(s) => r matches Ok(v) && views_of(v@) == s.filter(no_release()),
            },
    {
        let loaded = self.sm.load();
        let songs = match loaded {
            Ok(v) => v,
            Err(e) => {
                return Err(e);
            },
        };
        let ghost s = views_of(songs@);
        let mut out: Vec<Song> = Vec::new();
        let mut j: usize = 0;
        proof {
            reveal(Seq::filter);
            assert(s.take(0) =~= Seq::<SongView>::empty());
            assert(views_of(out@) =~= s.take(0).filter(no_release()));
        }
        while j < songs.len()
            invariant
                j <= songs.len(),
                s == views_of(songs@),
                views_of(out@) == s.take(j as int).filter(no_release()),
            decreases songs.len() - j,
        {
            proof {
                reveal(Seq::filter);
                assert(s.take(j + 1).drop_last() =~= s.take(j as int));
                assert(s.take(j + 1).last() == s[j as int]);
            }
            let keep = songs[j].release.is_none();
            if keep {
                let ghost prev = views_of(out@);
                out.push(songs[j].clone());
                proof {
                    assert(views_of(out@) =~= prev.push(s[j as int]));
                }
            }
            j = j + 1;
        }
        proof {
            assert(s.take(songs@.len() as int) =~= s);
        }
        Ok(out)
    }

    /// Overwrites the store with the given songs, dropping later records
    /// that repeat an earlier record's path.
    pub fn save_all(&mut self, songs: &Vec<Song>)
        ensures
            final(self).inv(),
            final(self).contents() == Some(
                crate::model::dedup_by(views_of(songs@), song_key(), Set::empty()),
            ),
    {
        let kept = dedup_songs(songs);
        self.sm.save(&kept);
    }

    /// Inserts the given songs with set semantics: a song whose path is
    /// already stored is left as it is, the rest are appended in order.
    pub fn add_save(&mut self, songs: &Vec<Song>) -> (r: CoreResult<()>)
        requires
            old(self).inv(),
        ensures
            final(self).inv(),
            match old(self).contents() {
                None => r == Err::<(), CoreError>(CoreError::StorageCorrupt) && final(self).contents() == old(self).contents(),
                Some(s) => r is Ok && final(self).contents() == Some(
                    add_songs_spec(s, views_of(songs@)),
                ),
            },
    {
        let loaded = self.sm.load();
        let mut existing = match loaded {
            Ok(v) => v,
            Err(e) => {
                return Err(e);
            },
        };
        let ghost s0 = views_of(existing@);
        let mut j: usize = 0;
        proof {
            assert(views_of(songs@).take(0) =~= Seq::<SongView>::empty());
        }
        while j < songs.len()
            invariant
                j <= songs.len(),
                views_of(existing@) == add_songs_spec(s0, views_of(songs@).take(j as int)),
                unique_keys(s0, song_key()) ==> unique_keys(views_of(existing@), song_key()),
            decreases songs.len() - j,
        {
            let ghost cur = views_of(existing@);
            proof {
                lemma_add_songs_push(s0, views_of(songs@).take(j as int), views_of(songs@)[j as int]);
                assert(views_of(songs@).take(j as int).push(views_of(songs@)[j as int]) =~= views_of(
                    songs@,
                ).take(j + 1));
            }
            let present = find_song(&existing, &songs[j].path);
            if present.is_none() {
                existing.push(songs[j].clone());
                proof {
                    assert(views_of(existing@) =~= cur.push(views_of(songs@)[j as int]));
                }
            }
            j = j + 1;
        }
        proof {
            assert(views_of(songs@).take(songs@.len() as int) =~= views_of(songs@));
        }
        self.sm.save(&existing);
        Ok(())
    }

    /// Removes each given song, by path; if any is absent the whole batch
    /// fails with NotFound and the store is unchanged.
    #[verifier::loop_isolation(false)]
    pub fn remove(&mut self, songs: &Vec<Song>) -> (r: CoreResult<()>)
        requires
            old(self).inv(),
        ensures
            final(self).inv(),
            match old(self).contents() {
                None => r == Err::<(), CoreError>(CoreError::StorageCorrupt) && final(self).contents() == old(self).contents(),
                Some(s) => match remove_keys(s, song_key(), crate::entity::song::song_paths(views_of(songs@))) {
                    Some(s2) => r is Ok && final(self).contents() == Some(s2),
                    None => r == Err::<(), CoreError>(CoreError::NotFound) && final(self).contents() == old(self).contents(),
                },
            },
    {
        let loaded = self.sm.load();
        let mut existing = match loaded {
            Ok(v) => v,
            Err(e) => {
                return Err(e);
            },
        };
        let ghost s0 = views_of(existing@);
        let ghost keys = crate::entity::song::song_paths(views_of(songs@));
        let mut k: usize = 0;
        proof {
            assert(keys.take(0) =~= Seq::<Seq<char>>::empty());
        }
        while k < songs.len()
            invariant
                k <= songs.len(),
                keys.len() == songs@.len(),
                remove_keys(s0, song_key(), keys.take(k as int)) == Some(views_of(existing@)),
                unique_keys(s0, song_key()) ==> unique_keys(views_of(existing@), song_key()),
            decreases songs.len() - k,
        {
            let ghost cur = views_of(existing@);
            proof {
                assert(keys[k as int] == songs@[k as int]@.path);
                lemma_remove_keys_push(s0, song_key(), keys.take(k as int), keys[k as int]);
                assert(keys.take(k as int).push(keys[k as int]) =~= keys.take(k + 1));
            }
            let found = find_song(&existing, &songs[k].path);
            let i = match found {
                Some(i) => i,
                None => {
                    proof {
                        lemma_remove_keys_stays_none(s0, song_key(), keys, k + 1);
                    }
                    return Err(CoreError::NotFound);
                },
            };
            proof {
                lemma_first_key_index(cur, song_key(), keys[k as int]);
                assert(i as int == first_key_index(cur, song_key(), keys[k as int]));
            }
            let _ = existing.remove(i);
            proof {
                assert(views_of(existing@) =~= cur.remove(i as int));
            }
            k = k + 1;
        }
        proof {
            assert(keys.take(keys.len() as int) =~= keys);
        }
        self.sm.save(&existing);
        Ok(())
    }

    /// Removes the song stored under each given path; if any is absent the
    /// whole batch fails with NotFound and the store is unchanged.
    #[verifier::loop_isolation(false)]
    pub fn remove_by_files(&mut self, files: &Vec<String>) -> (r: CoreResult<()>)
        requires
            old(self).inv(),
        ensures
            final(self).inv(),
            match old(self).contents() {
                None => r == Err::<(), CoreError>(CoreError::StorageCorrupt) && final(self).contents() == old(self).contents(),
                Some(s) => match remove_keys(s, song_key(), views_of(files@)) {
                    Some(s2) => r is Ok && final(self).contents() == Some(s2),
                    None => r == Err::<(), CoreError>(CoreError::NotFound) && final(self).contents() == old(self).contents(),
                },
            },
    {
        let loaded = self.sm.load();
        let mut existing = match loaded {
            Ok(v) => v,
            Err(e) => {
                return Err(e);
            },
        };
        let ghost s0 = views_of(existing@);
        let ghost keys = views_of(files@);
        let mut k: usize = 0;
        proof {
            assert(keys.take(0) =~= Seq::<Seq<char>>::empty());
        }
        while k < files.len()
            invariant
                k <= files.len(),
                keys.len() == files@.len(),
                remove_keys(s0, song_key(), keys.take(k as int)) == Some(views_of(existing@)),
                unique_keys(s0, song_key()) ==> unique_keys(views_of(existing@), song_key()),
            decreases files.len() - k,
        {
            let ghost cur = views_of(existing@);
            proof {
                lemma_remove_keys_push(s0, song_key(), keys.take(k as int), keys[k as int]);
                assert(keys.take(k as int).push(keys[k as int]) =~= keys.take(k + 1));
            }
            let found = find_song(&existing, &files[k]);
            let i = match found {
                Some(i) => i,
                None => {
                    proof {
                        lemma_remove_keys_stays_none(s0, song_key(), keys, k + 1);
                    }
                    return Err(CoreError::NotFound);
                },
            };
            proof {
                lemma_first_key_index(cur, song_key(), keys[k as int]);
                assert(i as int == first_key_index(cur, song_key(), keys[k as int]));
            }
            let _ = existing.remove(i);
            proof {
                assert(views_of(existing@) =~= cur.remove(i as int));
            }
            k = k + 1;
        }
        proof {
            assert(keys.take(keys.len() as int) =~= keys);
        }
        self.sm.save(&existing);
        Ok(())
    }

    /// Replaces the stored song bearing the given record's path; fails with
    /// NotFound if no song has that path.
    pub fn modify(&mut self, song: &Song) -> (r: CoreResult<()>)
        requires
            old(self).inv(),
        ensures
            final(self).inv(),
            match old(self).contents() {
                None => r == Err::<(), CoreError>(CoreError::StorageCorrupt) && final(self).contents() == old(self).contents(),
                Some(s) => if !has_key(s, song_key(), song@.path) {
                    r == Err::<(), CoreError>(CoreError::NotFound) && final(self).contents() == old(self).contents()
                } else {
                    r is Ok && exists|i: int|
                        0 <= i < s.len() && (#[trigger] s[i]).path == song@.path && final(self).contents()
                            == Some(s.update(i, song@))
                },
            },
    {
        let loaded = self.sm.load();
        let mut existing = match loaded {
            Ok(v) => v,
            Err(e) => {
                return Err(e);
            },
        };
        let found = find_song(&existing, &song.path);
        let i = match found {
            Some(i) => i,
            None => {
                return Err(CoreError::NotFound);
            },
        };
        let ghost s = views_of(existing@);
        let _ = existing.remove(i);
        existing.insert(i, song.clone());
        proof {
            assert(views_of(existing@) =~= s.update(i as int, song@));
        }
        self.sm.save(&existing);
        Ok(())
    }
}

} // verus!
