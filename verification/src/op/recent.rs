//! Operations on the recent list: an ordered sequence, newest first, with
//! front insertion and removal by position or by song path.

use vstd::prelude::*;
use crate::entity::recent::Recent;
use crate::entity::recent::RecentView;
use crate::entity::song::Song;
use crate::error::CoreError;
use crate::error::CoreResult;
use crate::model::lemma_remove_at_each_push;
use crate::model::lemma_remove_at_each_stays_none;
use crate::model::lemma_views_of_index;
use crate::model::lemma_views_of_len;
use crate::model::remove_at_each;
use crate::model::sort_desc;
use crate::model::sorted_desc;
use crate::model::views_of;
use crate::sm::StoreManager;
use crate::sm::load_model;
use crate::text::str_eq;

verus! {

broadcast use lemma_views_of_index, lemma_views_of_len;

/// The entries whose song is not the given path.
pub open spec fn rec_not_path(p: Seq<char>) -> spec_fn(RecentView) -> bool {
    |x: RecentView| x.song != p
}

/// The entries whose song is none of the given paths.
pub open spec fn rec_not_in(ps: Seq<Seq<char>>) -> spec_fn(RecentView) -> bool {
    |x: RecentView| !ps.contains(x.song)
}

/// Operations on the recent-list document store.
pub struct RecentOp {
    pub sm: StoreManager<Recent>,
}

impl RecentOp {
    /// The stored list: the entries when the document is readable, nothing
    /// when it is corrupt.
    pub open spec fn contents(&self) -> Option<Seq<RecentView>> {
        load_model(self.sm.model())
    }

    pub fn new(sm: StoreManager<Recent>) -> (r: Self)
        ensures
            r.contents() == load_model(sm.model()),
    {
        RecentOp { sm }
    }

    /// Hands back copies of all entries, newest first.
    pub fn list_all(&self) -> (r: CoreResult<Vec<Recent>>)
        ensures
            match self.contents() {
                None => r == Err::<Vec<Recent>, CoreError>(CoreError::StorageCorrupt),
                Some(s) => r matches Ok(v) && views_of(v@) == s,
            },
    {
        self.sm.load()
    }

    /// Replaces the store with the empty list.
    pub fn clear(&mut self)
        ensures
            final(self).contents() == Some(Seq::<RecentView>::empty()),
    {
        let entries: Vec<Recent> = Vec::new();
        proof {
            assert(views_of(entries@) =~= Seq::<RecentView>::empty());
        }
        self.sm.save(&entries);
    }

    /// Prepends an entry for the given song, stamped with the current time.
    pub fn add(&mut self, song: Song) -> (r: CoreResult<()>)
        ensures
            match old(self).contents() {
                None => r == Err::<(), CoreError>(CoreError::StorageCorrupt) && final(self).contents() == old(self).contents(),
                Some(s) => r is Ok && (final(self).contents() matches Some(s2) && s2.len() == s.len()
                    + 1 && s2.skip(1) == s && s2[0].song == song@.path && s2[0].accessed_at is Some),
            },
    {
        let ghost p = song@.path;
        let entry = Recent::from_song(song);
        self.insert_entry(entry)
    }

    /// Prepends a copy of the given entry: the list keeps its order behind
    /// the new head.
    pub fn insert(&mut self, recent: &Recent) -> (r: CoreResult<()>)
        ensures
            match old(self).contents() {
                None => r == Err::<(), CoreError>(CoreError::StorageCorrupt) && final(self).contents() == old(self).contents(),
                Some(s) => r is Ok && final(self).contents() == Some(seq![recent@] + s),
            },
    {
        self.insert_entry(recent.clone())
    }

    /// Prepends the given entry.
    fn insert_entry(&mut self, recent: Recent) -> (r: CoreResult<()>)
        ensures
            match old(self).contents() {
                None => r == Err::<(), CoreError>(CoreError::StorageCorrupt) && final(self).contents() == old(self).contents(),
                Some(s) => r is Ok && final(self).contents() == Some(seq![recent@] + s),
            },
    {
        let loaded = self.sm.load();
        let mut entries = match loaded {
            Ok(v) => v,
            Err(e) => {
                return Err(e);
            },
        };
        let ghost s = views_of(entries@);
        entries.insert(0, recent);
        proof {
            assert(views_of(entries@) =~= seq![entries@[0]@] + s);
        }
        self.sm.save(&entries);
        Ok(())
    }

    /// Removes the entry at the given position; fails with IndexOutOfRange
    /// when the position is past the end, leaving the store unchanged.
    pub fn remove_by_index(&mut self, index: usize) -> (r: CoreResult<()>)
        ensures
            match old(self).contents() {
                None => r == Err::<(), CoreError>(CoreError::StorageCorrupt) && final(self).contents() == old(self).contents(),
                Some(s) => if (index as int) < s.len() {
                    r is Ok && final(self).contents() == Some(s.remove(index as int))
                } else {
                    r == Err::<(), CoreError>(CoreError::IndexOutOfRange) && final(self).contents() == old(self).contents()
                },
            },
    {
        let loaded = self.sm.load();
        let mut entries = match loaded {
            Ok(v) => v,
            Err(e) => {
                return Err(e);
            },
        };
        if index >= entries.len() {
            return Err(CoreError::IndexOutOfRange);
        }
        let ghost s = views_of(entries@);
        let _ = entries.remove(index);
        proof {
            assert(views_of(entries@) =~= s.remove(index as int));
        }
        self.sm.save(&entries);
        Ok(())
    }

    /// Removes the entries at the listed positions, applied in descending
    /// order so earlier positions stay valid; if one is out of range when
    /// its turn comes the whole batch fails with IndexOutOfRange and the
    /// store is unchanged.
    #[verifier::loop_isolation(false)]
    pub fn remove_by_indexs(&mut self, indices: Vec<usize>) -> (r: CoreResult<()>)
        ensures
            match old(self).contents() {
                None => r == Err::<(), CoreError>(CoreError::StorageCorrupt) && final(self).contents() == old(self).contents(),
                Some(s) => match remove_at_each(s, sort_desc(indices@)) {
                    Some(s2) => r is Ok && final(self).contents() == Some(s2),
                    None => r == Err::<(), CoreError>(CoreError::IndexOutOfRange) && final(self).contents() == old(self).contents(),
                },
            },
    {
        let loaded = self.sm.load();
        let mut entries = match loaded {
            Ok(v) => v,
            Err(e) => {
                return Err(e);
            },
        };
        let sorted = sorted_desc(&indices);
        let ghost s0 = views_of(entries@);
        let ghost keys = sorted@;
        let mut k: usize = 0;
        proof {
            assert(keys.take(0) =~= Seq::<usize>::empty());
        }
        while k < sorted.len()
            invariant
                k <= sorted.len(),
                keys == sorted@,
                remove_at_each(s0, keys.take(k as int)) == Some(views_of(entries@)),
            decreases sorted.len() - k,
        {
            let ghost cur = views_of(entries@);
            proof {
                lemma_remove_at_each_push(s0, keys.take(k as int), keys[k as int]);
                assert(keys.take(k as int).push(keys[k as int]) =~= keys.take(k + 1));
            }
            let idx = sorted[k];
            if idx >= entries.len() {
                proof {
                    lemma_remove_at_each_stays_none(s0, keys, k + 1);
                }
                return Err(CoreError::IndexOutOfRange);
            }
            let _ = entries.remove(idx);
            proof {
                assert(views_of(entries@) =~= cur.remove(idx as int));
            }
            k = k + 1;
        }
        proof {
            assert(keys.take(keys.len() as int) =~= keys);
        }
        self.sm.save(&entries);
        Ok(())
    }

    /// Removes every entry for the given song's path.
    pub fn remove_by_song_all(&mut self, song: Song) -> (r: CoreResult<()>)
        ensures
            match old(self).contents() {
                None => r == Err::<(), CoreError>(CoreError::StorageCorrupt) && final(self).contents() == old(self).contents(),
                Some(s) => r is Ok && final(self).contents() == Some(
                    s.filter(rec_not_path(song@.path)),
                ),
            },
    {
        self.remove_by_song_path(&song.path)
    }

    /// Removes every entry for any of the given songs' paths.
    pub fn remove_by_songs_all(&mut self, songs: Vec<Song>) -> (r: CoreResult<()>)
        ensures
            match old(self).contents() {
                None => r == Err::<(), CoreError>(CoreError::StorageCorrupt) && final(self).contents() == old(self).contents(),
                Some(s) => r is Ok && final(self).contents() == Some(
                    s.filter(rec_not_in(crate::entity::song::song_paths(views_of(songs@)))),
                ),
            },
    {
        let mut paths: Vec<String> = Vec::new();
        let mut j: usize = 0;
        proof {
            assert(views_of(paths@) =~= crate::entity::song::song_paths(views_of(songs@)).take(0));
        }
        while j < songs.len()
            invariant
                j <= songs.len(),
                views_of(paths@) == crate::entity::song::song_paths(views_of(songs@)).take(
                    j as int,
                ),
            decreases songs.len() - j,
        {
            let ghost prev = views_of(paths@);
            paths.push(songs[j].path.clone());
            proof {
                let ghost sp = crate::entity::song::song_paths(views_of(songs@));
                assert(sp[j as int] == songs@[j as int]@.path);
                assert(views_of(paths@) =~= prev.push(songs@[j as int]@.path));
                assert(sp.take(j + 1) =~= sp.take(j as int).push(sp[j as int]));
            }
            j = j + 1;
        }
        proof {
            assert(crate::entity::song::song_paths(views_of(songs@)).take(songs@.len() as int)
                =~= crate::entity::song::song_paths(views_of(songs@)));
        }
        self.remove_by_song_paths(paths)
    }

    /// Removes every entry for the given path.
    pub fn remove_by_song_path(&mut self, song: &String) -> (r: CoreResult<()>)
        ensures
            match old(self).contents() {
                None => r == Err::<(), CoreError>(CoreError::StorageCorrupt) && final(self).contents() == old(self).contents(),
                Some(s) => r is Ok && final(self).contents() == Some(s.filter(rec_not_path(song@))),
            },
    {
        let loaded = self.sm.load();
        let entries = match loaded {
            Ok(v) => v,
            Err(e) => {
                return Err(e);
            },
        };
        let ghost s = views_of(entries@);
        let mut kept: Vec<Recent> = Vec::new();
        let mut j: usize = 0;
        proof {
            reveal(Seq::filter);
            assert(s.take(0) =~= Seq::<RecentView>::empty());
            assert(views_of(kept@) =~= s.take(0).filter(rec_not_path(song@)));
        }
        while j < entries.len()
            invariant
                j <= entries.len(),
                s == views_of(entries@),
                views_of(kept@) == s.take(j as int).filter(rec_not_path(song@)),
            decreases entries.len() - j,
        {
            proof {
                reveal(Seq::filter);
                assert(s.take(j + 1).drop_last() =~= s.take(j as int));
                assert(s.take(j + 1).last() == s[j as int]);
            }
            let hit = str_eq(entries[j].song.as_str(), song.as_str());
            if !hit {
                let ghost prev = views_of(kept@);
                kept.push(entries[j].clone());
                proof {
                    assert(views_of(kept@) =~= prev.push(s[j as int]));
                }
            }
            j = j + 1;
        }
        proof {
            assert(s.take(entries@.len() as int) =~= s);
        }
        self.sm.save(&kept);
        Ok(())
    }

    /// Removes every entry for any of the given paths.
    pub fn remove_by_song_paths(&mut self, song_paths: Vec<String>) -> (r: CoreResult<()>)
        ensures
            match old(self).contents() {
                None => r == Err::<(), CoreError>(CoreError::StorageCorrupt) && final(self).contents() == old(self).contents(),
                Some(s) => r is Ok && final(self).contents() == Some(
                    s.filter(rec_not_in(views_of(song_paths@))),
                ),
            },
    {
        let loaded = self.sm.load();
        let entries = match loaded {
            Ok(v) => v,
            Err(e) => {
                return Err(e);
            },
        };
        let ghost s = views_of(entries@);
        let mut kept: Vec<Recent> = Vec::new();
        let mut j: usize = 0;
        proof {
            reveal(Seq::filter);
            assert(s.take(0) =~= Seq::<RecentView>::empty());
            assert(views_of(kept@) =~= s.take(0).filter(rec_not_in(views_of(song_paths@))));
        }
        while j < entries.len()
            invariant
                j <= entries.len(),
                s == views_of(entries@),
                views_of(kept@) == s.take(j as int).filter(rec_not_in(views_of(song_paths@))),
            decreases entries.len() - j,
        {
            proof {
                reveal(Seq::filter);
                assert(s.take(j + 1).drop_last() =~= s.take(j as int));
                assert(s.take(j + 1).last() == s[j as int]);
            }
            let hit = crate::model::contains_string(&song_paths, &entries[j].song);
            if !hit {
                let ghost prev = views_of(kept@);
                kept.push(entries[j].clone());
                proof {
                    assert(views_of(kept@) =~= prev.push(s[j as int]));
                }
            }
            j = j + 1;
        }
        proof {
            assert(s.take(entries@.len() as int) =~= s);
        }
        self.sm.save(&kept);
        Ok(())
    }
}

} // verus!
