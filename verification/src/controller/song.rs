//! The song controller: owns the song store operations, plans a bulk
//! refresh against the cached records, and replaces records wholesale
//! with or without preserving their stored scores.

use vstd::prelude::*;
use crate::entity::song::Score;
use crate::entity::song::Song;
use crate::entity::song::SongView;
use crate::entity::song::song_key;
use crate::error::CoreError;
use crate::error::CoreResult;
use crate::model::first_key_index;
use crate::model::has_key;
use crate::model::lemma_first_key_index;
use crate::model::lemma_views_of_index;
use crate::model::lemma_views_of_len;
use crate::model::unique_keys;
use crate::model::views_of;
use crate::dir::FileSig;
use crate::dir::FileSigView;
use crate::op::release::opt_lt;
use crate::op::release::opt_str_lt;
use crate::op::song::SongOp;
use crate::sm::StoreManager;
use crate::sm::load_model;
use crate::text::str_eq;

verus! {

broadcast use lemma_views_of_index, lemma_views_of_len;

/// One file whose tags must be re-read, with the score its old record
/// carried so the re-parse can preserve it.
#[derive(Debug)]
pub struct ParseJob {
    pub path: String,
    pub prior_score: Option<Score>,
}

impl View for ParseJob {
    type V = (Seq<char>, Option<Score>);

    open spec fn view(&self) -> (Seq<char>, Option<Score>) {
        (self.path@, self.prior_score)
    }
}

/// What a bulk refresh must do for each scanned file: keep the cached
/// record, re-parse it, or parse it for the first time.
#[derive(Debug)]
pub struct LoadPlan {
    pub kept: Vec<Song>,
    pub reparse: Vec<ParseJob>,
    pub fresh: Vec<String>,
}

/// The plan a scan produces against the cached records, file by file: a
/// file whose cached record carries the same signature is kept as it is, a
/// changed file is re-parsed with its stored score preserved, and an
/// unknown file is parsed fresh. Cached records for vanished files are
/// dropped by not being kept.
pub open spec fn plan_spec(cached: Seq<SongView>, files: Seq<FileSigView>) -> (
    Seq<SongView>,
    Seq<(Seq<char>, Option<Score>)>,
    Seq<Seq<char>>,
)
    decreases files.len(),
{
    if files.len() == 0 {
        (Seq::empty(), Seq::empty(), Seq::empty())
    } else {
        let r = plan_spec(cached, files.drop_last());
        let f = files.last();
        if has_key(cached, song_key(), f.path) {
            let c = cached[first_key_index(cached, song_key(), f.path)];
            if c.updated_at == f.modified {
                (r.0.push(c), r.1, r.2)
            } else {
                (r.0, r.1.push((f.path, c.score)), r.2)
            }
        } else {
            (r.0, r.1, r.2.push(f.path))
        }
    }
}

/// A record as a replacement leaves it: the new record, with the stored
/// score kept when score preservation is on and the stored record has one.
pub open spec fn merged_song(stored: SongView, p: SongView, keep_score: bool) -> SongView {
    SongView {
        path: p.path,
        title: p.title,
        duration: p.duration,
        score: if keep_score && stored.score is Some {
            stored.score
        } else {
            p.score
        },
        created_at: p.created_at,
        updated_at: p.updated_at,
        artist: p.artist,
        release: p.release,
    }
}

/// Replacing each record by path in turn; nothing if one path is absent.
pub open spec fn replace_songs_spec(
    s: Seq<SongView>,
    parsed: Seq<SongView>,
    keep_score: bool,
) -> Option<Seq<SongView>>
    decreases parsed.len(),
{
    if parsed.len() == 0 {
        Some(s)
    } else if has_key(s, song_key(), parsed[0].path) {
        let i = first_key_index(s, song_key(), parsed[0].path);
        replace_songs_spec(s.update(i, merged_song(s[i], parsed[0], keep_score)), parsed.skip(1), keep_score)
    } else {
        None
    }
}

proof fn lemma_replace_songs_push(
    s: Seq<SongView>,
    parsed: Seq<SongView>,
    x: SongView,
    keep_score: bool,
)
    ensures
        replace_songs_spec(s, parsed.push(x), keep_score) == (match replace_songs_spec(
            s,
            parsed,
            keep_score,
        ) {
            Some(t) => if has_key(t, song_key(), x.path) {
                Some(
                    t.update(
                        first_key_index(t, song_key(), x.path),
                        merged_song(t[first_key_index(t, song_key(), x.path)], x, keep_score),
                    ),
                )
            } else {
                None::<Seq<SongView>>
            },
            None => None::<Seq<SongView>>,
        }),
    decreases parsed.len(),
{
    if parsed.len() == 0 {
        assert(parsed.push(x)[0] == x);
        assert(parsed.push(x).skip(1) =~= Seq::<SongView>::empty());
        if has_key(s, song_key(), x.path) {
            let i = first_key_index(s, song_key(), x.path);
            assert(replace_songs_spec(s, parsed.push(x), keep_score) == replace_songs_spec(
                s.update(i, merged_song(s[i], x, keep_score)),
                parsed.push(x).skip(1),
                keep_score,
            ));
        }
    } else {
        assert(parsed.push(x)[0] == parsed[0]);
        assert(parsed.push(x).skip(1) =~= parsed.skip(1).push(x));
        if has_key(s, song_key(), parsed[0].path) {
            let i = first_key_index(s, song_key(), parsed[0].path);
            lemma_replace_songs_push(
                s.update(i, merged_song(s[i], parsed[0], keep_score)),
                parsed.skip(1),
                x,
                keep_score,
            );
        }
    }
}

proof fn lemma_replace_songs_stays_none(
    s: Seq<SongView>,
    parsed: Seq<SongView>,
    k: int,
    keep_score: bool,
)
    requires
        1 <= k <= parsed.len(),
        replace_songs_spec(s, parsed.take(k), keep_score) is None,
    ensures
        replace_songs_spec(s, parsed, keep_score) is None,
    decreases parsed.len(),
{
    assert(parsed.take(k)[0] == parsed[0]);
    if has_key(s, song_key(), parsed[0].path) {
        assert(parsed.take(k).skip(1) =~= parsed.skip(1).take(k - 1));
        if k > 1 {
            let i = first_key_index(s, song_key(), parsed[0].path);
            lemma_replace_songs_stays_none(
                s.update(i, merged_song(s[i], parsed[0], keep_score)),
                parsed.skip(1),
                k - 1,
                keep_score,
            );
        }
    }
}

/// A song inserted into a title-sorted sequence: before the first record
/// whose title strictly follows it, so records with equal titles keep
/// their relative order.
pub open spec fn title_insert(s: Seq<SongView>, x: SongView) -> Seq<SongView>
    decreases s.len(),
{
    if s.len() == 0 {
        seq![x]
    } else if opt_lt(x.title, s[0].title) {
        seq![x] + s
    } else {
        seq![s[0]] + title_insert(s.skip(1), x)
    }
}

/// The published order of a song list: stably sorted by title, an absent
/// title first.
pub open spec fn sort_by_title(s: Seq<SongView>) -> Seq<SongView>
    decreases s.len(),
{
    if s.len() == 0 {
        Seq::empty()
    } else {
        title_insert(sort_by_title(s.drop_last()), s.last())
    }
}

proof fn lemma_title_insert_at(s: Seq<SongView>, x: SongView, j: int)
    requires
        0 <= j <= s.len(),
        forall|m: int| 0 <= m < j ==> !opt_lt(x.title, (#[trigger] s[m]).title),
        j == s.len() || opt_lt(x.title, s[j as int].title),
    ensures
        title_insert(s, x) == s.subrange(0, j) + seq![x] + s.skip(j),
    decreases j,
{
    if j == 0 {
        if s.len() == 0 {
            assert(title_insert(s, x) =~= s.subrange(0, 0) + seq![x] + s.skip(0));
        } else {
            assert(title_insert(s, x) =~= s.subrange(0, 0) + seq![x] + s.skip(0));
        }
    } else {
        lemma_title_insert_at(s.skip(1), x, j - 1);
        assert(s.skip(1).subrange(0, j - 1) =~= s.subrange(1, j));
        assert(s.skip(1).skip(j - 1) =~= s.skip(j));
        assert(seq![s[0]] + (s.subrange(1, j) + seq![x] + s.skip(j)) =~= s.subrange(0, j)
            + seq![x] + s.skip(j));
    }
}

/// Sorts copies of the given records into the published title order.
pub fn sorted_by_title(songs: &Vec<Song>) -> (r: Vec<Song>)
    ensures
        views_of(r@) == sort_by_title(views_of(songs@)),
{
    let mut r: Vec<Song> = Vec::new();
    let mut i: usize = 0;
    proof {
        assert(views_of(songs@).take(0) =~= Seq::<SongView>::empty());
        assert(views_of(r@) =~= sort_by_title(views_of(songs@).take(0)));
    }
    while i < songs.len()
        invariant
            i <= songs.len(),
            views_of(r@) == sort_by_title(views_of(songs@).take(i as int)),
        decreases songs.len() - i,
    {
        let ghost sorted = views_of(r@);
        let x = songs[i].clone();
        let mut j: usize = 0;
        while j < r.len() && !opt_str_lt(&x.title, &r[j].title)
            invariant
                j <= r.len(),
                sorted == views_of(r@),
                x == songs@[i as int],
                forall|m: int| 0 <= m < j ==> !opt_lt(x@.title, (#[trigger] sorted[m]).title),
            decreases r.len() - j,
        {
            j = j + 1;
        }
        proof {
            lemma_title_insert_at(sorted, x@, j as int);
            assert(views_of(songs@).take(i + 1).drop_last() =~= views_of(songs@).take(i as int));
            assert(views_of(songs@).take(i + 1).last() == views_of(songs@)[i as int]);
        }
        r.insert(j, x);
        proof {
            assert(views_of(r@) =~= sorted.subrange(0, j as int) + seq![views_of(songs@)[i as int]]
                + sorted.skip(j as int));
        }
        i = i + 1;
    }
    proof {
        assert(views_of(songs@).take(songs@.len() as int) =~= views_of(songs@));
    }
    r
}

/// The song controller.
pub struct SongController {
    pub op: SongOp,
}

impl SongController {
    /// The stored collection, as the operations expose it.
    pub open spec fn contents(&self) -> Option<Seq<SongView>> {
        self.op.contents()
    }

    /// The store's invariant: song paths are unique.
    pub open spec fn inv(&self) -> bool {
        self.op.inv()
    }

    pub fn new(sm: StoreManager<Song>) -> (r: Self)
        ensures
            r.contents() == load_model(sm.model()),
    {
        SongController { op: SongOp::new(sm) }
    }

    /// The owned store operations.
    pub fn get_op(&self) -> (r: &SongOp)
        ensures
            r == &self.op,
    {
        &self.op
    }

    /// Plans a bulk refresh for the given scanned files against the cached
    /// records, as `plan_spec` describes.
    pub fn plan_refresh(&self, files: &Vec<FileSig>) -> (r: CoreResult<LoadPlan>)
        requires
            self.inv(),
        ensures
            match self.contents() {
                None => r == Err::<LoadPlan, CoreError>(CoreError::StorageCorrupt),
                Some(s) => r matches Ok(plan) && {
                    let p = plan_spec(s, views_of(files@));
                    &&& views_of(plan.kept@) == p.0
                    &&& views_of(plan.reparse@) == p.1
                    &&& views_of(plan.fresh@) == p.2
                },
            },
    {
        let loaded = self.op.sm.load();
        let cached = match loaded {
            Ok(v) => v,
            Err(e) => {
                return Err(e);
            },
        };
        let ghost s = views_of(cached@);
        let ghost fv = views_of(files@);
        let mut kept: Vec<Song> = Vec::new();
        let mut reparse: Vec<ParseJob> = Vec::new();
        let mut fresh: Vec<String> = Vec::new();
        let mut j: usize = 0;
        proof {
            assert(fv.take(0) =~= Seq::<FileSigView>::empty());
            assert(views_of(kept@) =~= plan_spec(s, fv.take(0)).0);
            assert(views_of(reparse@) =~= plan_spec(s, fv.take(0)).1);
            assert(views_of(fresh@) =~= plan_spec(s, fv.take(0)).2);
        }
        while j < files.len()
            invariant
                j <= files.len(),
                s == views_of(cached@),
                fv == views_of(files@),
                self.inv(),
                self.contents() == Some(s),
                views_of(kept@) == plan_spec(s, fv.take(j as int)).0,
                views_of(reparse@) == plan_spec(s, fv.take(j as int)).1,
                views_of(fresh@) == plan_spec(s, fv.take(j as int)).2,
            decreases files.len() - j,
        {
            proof {
                assert(fv.take(j + 1).drop_last() =~= fv.take(j as int));
                assert(fv.take(j + 1).last() == fv[j as int]);
            }
            let found = find_cached(&cached, &files[j].path);
            match found {
                Some(i) => {
                    proof {
                        lemma_first_key_index(s, song_key(), fv[j as int].path);
                        assert(i as int == first_key_index(s, song_key(), fv[j as int].path));
                    }
                    let same = str_eq(
                        cached[i].updated_at.as_str(),
                        files[j].modified.as_str(),
                    );
                    if same {
                        let ghost prev = views_of(kept@);
                        kept.push(cached[i].clone());
                        proof {
                            assert(views_of(kept@) =~= prev.push(s[i as int]));
                        }
                    } else {
                        let ghost prev = views_of(reparse@);
                        reparse.push(
                            ParseJob { path: files[j].path.clone(), prior_score: cached[i].score },
                        );
                        proof {
                            assert(views_of(reparse@) =~= prev.push(
                                (fv[j as int].path, s[i as int].score),
                            ));
                        }
                    }
                },
                None => {
                    let ghost prev = views_of(fresh@);
                    fresh.push(files[j].path.clone());
                    proof {
                        assert(views_of(fresh@) =~= prev.push(fv[j as int].path));
                    }
                },
            }
            j = j + 1;
        }
        proof {
            assert(fv.take(files@.len() as int) =~= fv);
        }
        Ok(LoadPlan { kept, reparse, fresh })
    }

    /// Replaces each given record's stored counterpart, by path, in one
    /// atomic step: if any path is absent the whole batch fails with
    /// NotFound and the store is unchanged. With `keep_score` on, a stored
    /// score survives the replacement.
    #[verifier::loop_isolation(false)]
    pub fn replace_songs(&mut self, parsed: &Vec<Song>, keep_score: bool) -> (r: CoreResult<()>)
        requires
            old(self).inv(),
        ensures
            final(self).inv(),
            match old(self).contents() {
                None => r == Err::<(), CoreError>(CoreError::StorageCorrupt) && final(self).contents() == old(self).contents(),
                Some(s) => match replace_songs_spec(s, views_of(parsed@), keep_score) {
                    Some(s2) => r is Ok && final(self).contents() == Some(s2),
                    None => r == Err::<(), CoreError>(CoreError::NotFound) && final(self).contents() == old(self).contents(),
                },
            },
    {
        let loaded = self.op.sm.load();
        let mut existing = match loaded {
            Ok(v) => v,
            Err(e) => {
                return Err(e);
            },
        };
        let ghost s0 = views_of(existing@);
        let ghost pv = views_of(parsed@);
        let mut k: usize = 0;
        proof {
            assert(pv.take(0) =~= Seq::<SongView>::empty());
        }
        while k < parsed.len()
            invariant
                k <= parsed.len(),
                pv.len() == parsed@.len(),
                replace_songs_spec(s0, pv.take(k as int), keep_score) == Some(
                    views_of(existing@),
                ),
                unique_keys(s0, song_key()) ==> unique_keys(views_of(existing@), song_key()),
            decreases parsed.len() - k,
        {
            let ghost cur = views_of(existing@);
            proof {
                lemma_replace_songs_push(s0, pv.take(k as int), pv[k as int], keep_score);
                assert(pv.take(k as int).push(pv[k as int]) =~= pv.take(k + 1));
            }
            let found = find_cached(&existing, &parsed[k].path);
            let i = match found {
                Some(i) => i,
                None => {
                    proof {
                        lemma_replace_songs_stays_none(s0, pv, k + 1, keep_score);
                    }
                    return Err(CoreError::NotFound);
                },
            };
            proof {
                lemma_first_key_index(cur, song_key(), pv[k as int].path);
                assert(i as int == first_key_index(cur, song_key(), pv[k as int].path));
            }
            let stored_score = existing[i].score;
            let mut record = parsed[k].clone();
            if keep_score {
                if stored_score.is_some() {
                    record.score = stored_score;
                }
            }
            let _ = existing.remove(i);
            existing.insert(i, record);
            proof {
                assert(views_of(existing@) =~~= cur.update(
                    i as int,
                    merged_song(cur[i as int], pv[k as int], keep_score),
                ));
            }
            k = k + 1;
        }
        proof {
            assert(pv.take(pv.len() as int) =~= pv);
        }
        self.op.sm.save(&existing);
        Ok(())
    }
}

/// Finds the first record stored under the given path.
fn find_cached(v: &Vec<Song>, path: &String) -> (r: Option<usize>)
    ensures
        match r {
            Some(i) => (i as int) < v@.len() && views_of(v@)[i as int].path == path@ && forall|
                j: int,
            | 0 <= j < i ==> (#[trigger] views_of(v@)[j]).path != path@,
            None => !has_key(views_of(v@), song_key(), path@),
        },
{
    let mut i: usize = 0;
    while i < v.len()
        invariant
            i <= v.len(),
            forall|j: int| 0 <= j < i ==> (#[trigger] views_of(v@)[j]).path != path@,
        decreases v.len() - i,
    {
        if path.eq(&v[i].path) {
            return Some(i);
        }
        i = i + 1;
    }
    proof {
        assert forall|k: int| 0 <= k < views_of(v@).len() implies song_key()(
            #[trigger] views_of(v@)[k],
        ) != path@ by {
            assert(views_of(v@)[k].path != path@);
        }
    }
    None
}

} // verus!
