//! A watched directory: a root path plus a snapshot of every matching
//! audio file and its modification signature, and the diff of a fresh scan
//! against that snapshot.

use vstd::prelude::*;
use crate::model::dedup_by;
use crate::model::first_key_index;
use crate::model::has_key;
use crate::model::lemma_first_key_index;
use crate::model::lemma_views_of_index;
use crate::model::lemma_views_of_len;
use crate::model::unique_keys;
use crate::model::views_of;
use crate::paths::has_audio_ext;
use crate::paths::is_audio_path;
use crate::text::str_eq;

verus! {

broadcast use lemma_views_of_index, lemma_views_of_len;

/// One scanned file: its path and its modification signature.
#[derive(Debug)]
pub struct FileSig {
    pub path: String,
    pub modified: String,
}

/// The mathematical value of a scanned file.
#[verifier::ext_equal]
pub struct FileSigView {
    pub path: Seq<char>,
    pub modified: Seq<char>,
}

impl View for FileSig {
    type V = FileSigView;

    open spec fn view(&self) -> FileSigView {
        FileSigView { path: self.path@, modified: self.modified@ }
    }
}

impl Clone for FileSig {
    fn clone(&self) -> (res: Self)
        ensures
            res == *self,
    {
        FileSig { path: self.path.clone(), modified: self.modified.clone() }
    }
}

impl crate::model::Dup for FileSig {
    fn dup(&self) -> (r: Self)
        ensures
            r@ == self@,
    {
        self.clone()
    }
}

/// The key a snapshot entry is stored under: its path.
pub open spec fn fs_key() -> spec_fn(FileSigView) -> Seq<char> {
    |x: FileSigView| x.path
}

/// The paths of a sequence of snapshot entries, in order.
pub open spec fn paths_of(s: Seq<FileSigView>) -> Seq<Seq<char>> {
    s.map_values(|x: FileSigView| x.path)
}

/// The entries whose path carries one of the allowed audio extensions.
pub open spec fn audio_only(exts: Seq<Seq<char>>) -> spec_fn(FileSigView) -> bool {
    |e: FileSigView| has_audio_ext(e.path, exts)
}

/// The entries whose path is absent from the other snapshot.
pub open spec fn absent_in(s: Seq<FileSigView>) -> spec_fn(FileSigView) -> bool {
    |e: FileSigView| !has_key(s, fs_key(), e.path)
}

/// The signature recorded for a path: that of its first entry.
pub open spec fn sig_at(s: Seq<FileSigView>, p: Seq<char>) -> Seq<char> {
    s[first_key_index(s, fs_key(), p)].modified
}

/// The entries present in the other snapshot under a different signature.
pub open spec fn changed_in(s: Seq<FileSigView>) -> spec_fn(FileSigView) -> bool {
    |e: FileSigView| has_key(s, fs_key(), e.path) && sig_at(s, e.path) != e.modified
}

/// What a raw scan becomes as a snapshot: entries filtered by the audio
/// allow-list, then deduplicated by path, keeping each path's first entry.
pub open spec fn snapshot_of(entries: Seq<FileSigView>, exts: Seq<Seq<char>>) -> Seq<FileSigView> {
    dedup_by(entries.filter(audio_only(exts)), fs_key(), Set::empty())
}

/// The paths present before and absent now.
pub open spec fn diff_removed(old_snap: Seq<FileSigView>, new_snap: Seq<FileSigView>) -> Seq<
    Seq<char>,
> {
    paths_of(old_snap.filter(absent_in(new_snap)))
}

/// The paths absent before and present now.
pub open spec fn diff_added(old_snap: Seq<FileSigView>, new_snap: Seq<FileSigView>) -> Seq<
    Seq<char>,
> {
    paths_of(new_snap.filter(absent_in(old_snap)))
}

/// The paths present in both snapshots whose signature changed.
pub open spec fn diff_modified(old_snap: Seq<FileSigView>, new_snap: Seq<FileSigView>) -> Seq<
    Seq<char>,
> {
    paths_of(new_snap.filter(changed_in(old_snap)))
}

proof fn lemma_paths_of_filter_contains(
    s: Seq<FileSigView>,
    pred: spec_fn(FileSigView) -> bool,
    p: Seq<char>,
)
    ensures
        paths_of(s.filter(pred)).contains(p) <==> exists|k: int|
            0 <= k < s.len() && (#[trigger] s[k]).path == p && pred(s[k]),
    decreases s.len(),
{
    reveal(Seq::filter);
    if s.len() == 0 {
        assert(s.filter(pred) =~= Seq::<FileSigView>::empty());
        assert(!paths_of(s.filter(pred)).contains(p));
    } else {
        let init = s.drop_last();
        lemma_paths_of_filter_contains(init, pred, p);
        if pred(s.last()) {
            assert(s.filter(pred) =~= init.filter(pred).push(s.last()));
            assert(paths_of(s.filter(pred)) =~= paths_of(init.filter(pred)).push(s.last().path));
            assert(paths_of(s.filter(pred)).contains(p) <==> (paths_of(init.filter(pred)).contains(
                p,
            ) || s.last().path == p)) by {
                let q = paths_of(init.filter(pred));
                if paths_of(s.filter(pred)).contains(p) {
                    let k = choose|k: int|
                        0 <= k < q.push(s.last().path).len() && q.push(s.last().path)[k] == p;
                    if k < q.len() {
                        assert(q[k] == p);
                    }
                }
                if q.contains(p) {
                    let k = choose|k: int| 0 <= k < q.len() && q[k] == p;
                    assert(q.push(s.last().path)[k] == p);
                }
                if s.last().path == p {
                    assert(q.push(s.last().path)[q.len() as int] == p);
                }
            }
        } else {
            assert(s.filter(pred) =~= init.filter(pred));
        }
        assert forall|k: int| 0 <= k < init.len() && (#[trigger] init[k]).path == p && pred(
            init[k],
        ) implies exists|k2: int| 0 <= k2 < s.len() && (#[trigger] s[k2]).path == p && pred(
            s[k2],
        ) by {
            assert(s[k].path == p && pred(s[k]));
        }
        if exists|k: int| 0 <= k < s.len() && (#[trigger] s[k]).path == p && pred(s[k]) {
            let k = choose|k: int| 0 <= k < s.len() && (#[trigger] s[k]).path == p && pred(s[k]);
            if k < s.len() - 1 {
                assert(init[k].path == p && pred(init[k]));
            }
        }
    }
}

/// The diff of two snapshots partitions the change: a removed path was
/// present and is gone, an added path is new, a modified path is in both
/// under different signatures, and no path falls in more than one set;
/// dropping the removed paths from the old snapshot and adjoining the
/// added ones yields exactly the new snapshot's paths.
pub proof fn lemma_diff_partition(o: Seq<FileSigView>, n: Seq<FileSigView>)
    requires
        unique_keys(o, fs_key()),
        unique_keys(n, fs_key()),
    ensures
        forall|p: Seq<char>|
            #[trigger] diff_removed(o, n).contains(p) <==> (has_key(o, fs_key(), p) && !has_key(
                n,
                fs_key(),
                p,
            )),
        forall|p: Seq<char>|
            #[trigger] diff_added(o, n).contains(p) <==> (has_key(n, fs_key(), p) && !has_key(
                o,
                fs_key(),
                p,
            )),
        forall|p: Seq<char>|
            #[trigger] diff_modified(o, n).contains(p) <==> (has_key(o, fs_key(), p) && has_key(
                n,
                fs_key(),
                p,
            ) && sig_at(o, p) != sig_at(n, p)),
        forall|p: Seq<char>|
            !(#[trigger] diff_removed(o, n).contains(p) && diff_added(o, n).contains(p)) && !(
            diff_removed(o, n).contains(p) && diff_modified(o, n).contains(p)) && !(diff_added(
                o,
                n,
            ).contains(p) && diff_modified(o, n).contains(p)),
        forall|p: Seq<char>|
            ((has_key(o, fs_key(), p) && !diff_removed(o, n).contains(p)) || diff_added(
                o,
                n,
            ).contains(p)) <==> #[trigger] has_key(n, fs_key(), p),
{
    assert forall|p: Seq<char>| #[trigger] diff_removed(o, n).contains(p) <==> (has_key(
        o,
        fs_key(),
        p,
    ) && !has_key(n, fs_key(), p)) by {
        lemma_paths_of_filter_contains(o, absent_in(n), p);
        if has_key(o, fs_key(), p) && !has_key(n, fs_key(), p) {
            let k = choose|k: int| 0 <= k < o.len() && fs_key()(#[trigger] o[k]) == p;
            assert(o[k].path == p && absent_in(n)(o[k]));
        }
    }
    assert forall|p: Seq<char>| #[trigger] diff_added(o, n).contains(p) <==> (has_key(
        n,
        fs_key(),
        p,
    ) && !has_key(o, fs_key(), p)) by {
        lemma_paths_of_filter_contains(n, absent_in(o), p);
        if has_key(n, fs_key(), p) && !has_key(o, fs_key(), p) {
            let k = choose|k: int| 0 <= k < n.len() && fs_key()(#[trigger] n[k]) == p;
            assert(n[k].path == p && absent_in(o)(n[k]));
        }
    }
    assert forall|p: Seq<char>| #[trigger] diff_modified(o, n).contains(p) <==> (has_key(
        o,
        fs_key(),
        p,
    ) && has_key(n, fs_key(), p) && sig_at(o, p) != sig_at(n, p)) by {
        lemma_paths_of_filter_contains(n, changed_in(o), p);
        if diff_modified(o, n).contains(p) {
            let k = choose|k: int|
                0 <= k < n.len() && (#[trigger] n[k]).path == p && changed_in(o)(n[k]);
            lemma_first_key_index(n, fs_key(), p);
            let f = first_key_index(n, fs_key(), p);
            assert(fs_key()(n[k]) == p);
            if k != f {
                assert(fs_key()(n[k]) != fs_key()(n[f]));
            }
            assert(sig_at(n, p) == n[k].modified);
        }
        if has_key(o, fs_key(), p) && has_key(n, fs_key(), p) && sig_at(o, p) != sig_at(n, p) {
            lemma_first_key_index(n, fs_key(), p);
            let f = first_key_index(n, fs_key(), p);
            assert(n[f].path == p && changed_in(o)(n[f]));
        }
    }
}

/// A watched directory root and its current snapshot.
#[derive(Debug)]
pub struct Dir {
    pub path: String,
    pub audio_files: Vec<FileSig>,
}

/// The mathematical value of a watched directory.
#[verifier::ext_equal]
pub struct DirView {
    pub path: Seq<char>,
    pub snapshot: Seq<FileSigView>,
}

impl View for Dir {
    type V = DirView;

    open spec fn view(&self) -> DirView {
        DirView { path: self.path@, snapshot: views_of(self.audio_files@) }
    }
}

impl Dir {
    /// The snapshot's mathematical value.
    pub open spec fn snapshot(&self) -> Seq<FileSigView> {
        views_of(self.audio_files@)
    }

    /// The snapshot never records a path twice.
    pub open spec fn inv(&self) -> bool {
        unique_keys(self.snapshot(), fs_key())
    }

    /// A root with an empty snapshot.
    pub fn new(path: String) -> (r: Self)
        ensures
            r.inv(),
            r.path@ == path@,
            r.snapshot() == Seq::<FileSigView>::empty(),
    {
        let audio_files: Vec<FileSig> = Vec::new();
        proof {
            assert(views_of(audio_files@) =~= Seq::<FileSigView>::empty());
        }
        Dir { path, audio_files }
    }

    /// A root whose snapshot is taken from the given scan at once.
    pub fn init(path: String, entries: Vec<FileSig>, exts: &Vec<String>) -> (r: Self)
        ensures
            r.inv(),
            r.path@ == path@,
            r.snapshot() == snapshot_of(views_of(entries@), exts.deep_view()),
    {
        let mut dir = Dir::new(path);
        dir.scan(entries, exts);
        dir
    }

    /// The paths of the current snapshot, in snapshot order.
    pub fn glob(&self) -> (r: Vec<String>)
        ensures
            views_of(r@) == paths_of(self.snapshot()),
    {
        let mut r: Vec<String> = Vec::new();
        let mut i: usize = 0;
        proof {
            assert(views_of(r@) =~= paths_of(self.snapshot()).take(0));
        }
        while i < self.audio_files.len()
            invariant
                i <= self.audio_files.len(),
                views_of(r@) == paths_of(self.snapshot()).take(i as int),
            decreases self.audio_files.len() - i,
        {
            let ghost prev = views_of(r@);
            r.push(self.audio_files[i].path.clone());
            proof {
                let ghost ps = paths_of(self.snapshot());
                assert(ps[i as int] == self.snapshot()[i as int].path);
                assert(views_of(r@) =~= prev.push(ps[i as int]));
                assert(ps.take(i + 1) =~= ps.take(i as int).push(ps[i as int]));
            }
            i = i + 1;
        }
        proof {
            assert(paths_of(self.snapshot()).take(self.audio_files@.len() as int) =~= paths_of(
                self.snapshot(),
            ));
        }
        r
    }

    /// Replaces the snapshot with the given scan: entries outside the audio
    /// allow-list are dropped, and of entries sharing a path the first wins.
    pub fn scan(&mut self, entries: Vec<FileSig>, exts: &Vec<String>)
        ensures
            final(self).inv(),
            final(self).path == old(self).path,
            final(self).snapshot() == snapshot_of(views_of(entries@), exts.deep_view()),
    {
        let ghost full = views_of(entries@).filter(audio_only(exts.deep_view()));
        let ghost raw = views_of(entries@);
        // first pass: keep the entries matching the allow-list
        let mut filtered: Vec<FileSig> = Vec::new();
        let mut j: usize = 0;
        proof {
            reveal(Seq::filter);
            assert(raw.take(0) =~= Seq::<FileSigView>::empty());
            assert(views_of(filtered@) =~= raw.take(0).filter(audio_only(exts.deep_view())));
        }
        while j < entries.len()
            invariant
                j <= entries.len(),
                raw == views_of(entries@),
                views_of(filtered@) == raw.take(j as int).filter(audio_only(exts.deep_view())),
            decreases entries.len() - j,
        {
            proof {
                reveal(Seq::filter);
                assert(raw.take(j + 1).drop_last() =~= raw.take(j as int));
                assert(raw.take(j + 1).last() == raw[j as int]);
            }
            let keep = is_audio_path(entries[j].path.as_str(), exts);
            if keep {
                let ghost prev = views_of(filtered@);
                filtered.push(entries[j].clone());
                proof {
                    assert(views_of(filtered@) =~= prev.push(raw[j as int]));
                }
            }
            j = j + 1;
        }
        proof {
            assert(raw.take(entries@.len() as int) =~= raw);
        }
        // second pass: drop later entries repeating a path
        let mut kept: Vec<FileSig> = Vec::new();
        let mut k: usize = 0;
        proof {
            assert(full.skip(0) =~= full);
            assert(views_of(kept@) =~= Seq::<FileSigView>::empty());
            assert(views_of(kept@).map_values(fs_key()).to_set() =~= Set::<Seq<char>>::empty());
            assert(views_of(kept@) + dedup_by(
                full,
                fs_key(),
                views_of(kept@).map_values(fs_key()).to_set(),
            ) =~= dedup_by(full, fs_key(), Set::empty()));
        }
        while k < filtered.len()
            invariant
                k <= filtered.len(),
                full == views_of(filtered@),
                unique_keys(views_of(kept@), fs_key()),
                forall|m: int|
                    0 <= m < views_of(kept@).len() ==> views_of(kept@).map_values(
                        fs_key(),
                    ).to_set().contains(fs_key()(#[trigger] views_of(kept@)[m])),
                dedup_by(full, fs_key(), Set::<Seq<char>>::empty()) == views_of(kept@) + dedup_by(
                    full.skip(k as int),
                    fs_key(),
                    views_of(kept@).map_values(fs_key()).to_set(),
                ),
            decreases filtered.len() - k,
        {
            let ghost seen = views_of(kept@).map_values(fs_key()).to_set();
            let ghost rest = full.skip(k as int);
            proof {
                assert(rest[0] == full[k as int]);
                assert(rest.skip(1) =~= full.skip(k + 1));
                assert(seen.contains(fs_key()(full[k as int])) == has_key(
                    views_of(kept@),
                    fs_key(),
                    full[k as int].path,
                )) by {
                    let kv = views_of(kept@);
                    if seen.contains(fs_key()(full[k as int])) {
                        let m = choose|m: int|
                            0 <= m < kv.map_values(fs_key()).len() && kv.map_values(fs_key())[m]
                                == fs_key()(full[k as int]);
                        assert(fs_key()(kv[m]) == full[k as int].path);
                    }
                    if has_key(kv, fs_key(), full[k as int].path) {
                        let m = choose|m: int|
                            0 <= m < kv.len() && fs_key()(#[trigger] kv[m]) == full[k as int].path;
                        assert(kv.map_values(fs_key())[m] == fs_key()(full[k as int]));
                        assert(kv.map_values(fs_key()).contains(fs_key()(full[k as int])));
                    }
                }
            }
            let present = find_sig(&kept, &filtered[k].path);
            let ghost kv = views_of(kept@);
            if present.is_none() {
                kept.push(filtered[k].clone());
                proof {
                    assert(views_of(kept@) =~= kv.push(full[k as int]));
                    assert(views_of(kept@).map_values(fs_key()).to_set() =~= seen.insert(
                        fs_key()(full[k as int]),
                    )) by {
                        assert(views_of(kept@).map_values(fs_key()) =~= kv.map_values(
                            fs_key(),
                        ).push(fs_key()(full[k as int])));
                        broadcast use vstd::seq_lib::group_seq_properties;

                    }
                    assert(kv + (seq![full[k as int]] + dedup_by(
                        full.skip(k + 1),
                        fs_key(),
                        seen.insert(fs_key()(full[k as int])),
                    )) =~= views_of(kept@) + dedup_by(
                        full.skip(k + 1),
                        fs_key(),
                        views_of(kept@).map_values(fs_key()).to_set(),
                    ));
                }
            }
            k = k + 1;
        }
        proof {
            assert(full.skip(full.len() as int) =~= Seq::<FileSigView>::empty());
            assert(views_of(kept@) + dedup_by(
                full.skip(full.len() as int),
                fs_key(),
                views_of(kept@).map_values(fs_key()).to_set(),
            ) =~= views_of(kept@));
        }
        self.audio_files = kept;
    }

    /// Re-scans against the given entries and reports the diff against the
    /// previous snapshot as three path lists: removed, added and modified.
    /// The new snapshot replaces the old one.
    pub fn update(&mut self, entries: Vec<FileSig>, exts: &Vec<String>) -> (r: (
        Vec<String>,
        Vec<String>,
        Vec<String>,
    ))
        ensures
            final(self).inv(),
            final(self).path == old(self).path,
            final(self).snapshot() == snapshot_of(views_of(entries@), exts.deep_view()),
            views_of(r.0@) == diff_removed(old(self).snapshot(), final(self).snapshot()),
            views_of(r.1@) == diff_added(old(self).snapshot(), final(self).snapshot()),
            views_of(r.2@) == diff_modified(old(self).snapshot(), final(self).snapshot()),
    {
        let ghost old_snap = self.snapshot();
        let mut old_files: Vec<FileSig> = Vec::new();
        core::mem::swap(&mut old_files, &mut self.audio_files);
        proof {
            assert(views_of(old_files@) == old_snap);
        }
        self.scan(entries, exts);
        let removed = diff_removed_exec(&old_files, &self.audio_files);
        let added = diff_added_exec(&old_files, &self.audio_files);
        let modified = diff_modified_exec(&old_files, &self.audio_files);
        (removed, added, modified)
    }
}

/// Finds the first snapshot entry with the given path.
fn find_sig(v: &Vec<FileSig>, path: &String) -> (r: Option<usize>)
    ensures
        match r {
            Some(i) => (i as int) < v@.len() && views_of(v@)[i as int].path == path@ && forall|
                j: int,
            | 0 <= j < i ==> (#[trigger] views_of(v@)[j]).path != path@,
            None => !has_key(views_of(v@), fs_key(), path@),
        },
{
    let mut i: usize = 0;
    while i < v.len()
        invariant
            i <= v.len(),
            forall|j: int| 0 <= j < i ==> (#[trigger] views_of(v@)[j]).path != path@,
        decreases v.len() - i,
    {
        if path.eq(&v[i].path) {
            return Some(i);
        }
        i = i + 1;
    }
    proof {
        assert forall|k: int| 0 <= k < views_of(v@).len() implies fs_key()(
            #[trigger] views_of(v@)[k],
        ) != path@ by {
            assert(views_of(v@)[k].path != path@);
        }
    }
    None
}

/// The paths of `from` that are absent from `other`.
fn diff_removed_exec(from: &Vec<FileSig>, other: &Vec<FileSig>) -> (r: Vec<String>)
    ensures
        views_of(r@) == diff_removed(views_of(from@), views_of(other@)),
{
    let ghost s = views_of(from@);
    let ghost pred = absent_in(views_of(other@));
    let mut out: Vec<String> = Vec::new();
    let mut j: usize = 0;
    proof {
        reveal(Seq::filter);
        assert(s.take(0) =~= Seq::<FileSigView>::empty());
        assert(s.take(0).filter(pred) =~= Seq::<FileSigView>::empty());
        assert(views_of(out@) =~= paths_of(s.take(0).filter(pred)));
    }
    while j < from.len()
        invariant
            j <= from.len(),
            s == views_of(from@),
            views_of(out@) == paths_of(s.take(j as int).filter(absent_in(views_of(other@)))),
        decreases from.len() - j,
    {
        proof {
            reveal(Seq::filter);
            assert(s.take(j + 1).drop_last() =~= s.take(j as int));
            assert(s.take(j + 1).last() == s[j as int]);
        }
        let hit = find_sig(other, &from[j].path);
        if hit.is_none() {
            let ghost prev = views_of(out@);
            out.push(from[j].path.clone());
            proof {
                assert(views_of(out@) =~= prev.push(s[j as int].path));
                assert(paths_of(s.take(j + 1).filter(absent_in(views_of(other@)))) =~= paths_of(
                    s.take(j as int).filter(absent_in(views_of(other@))),
                ).push(s[j as int].path));
            }
        } else {
            proof {
                assert(has_key(views_of(other@), fs_key(), s[j as int].path));
                assert(paths_of(s.take(j + 1).filter(absent_in(views_of(other@)))) =~= paths_of(
                    s.take(j as int).filter(absent_in(views_of(other@))),
                ));
            }
        }
        j = j + 1;
    }
    proof {
        assert(s.take(from@.len() as int) =~= s);
    }
    out
}

/// The paths of `other` that are absent from `from`.
fn diff_added_exec(from: &Vec<FileSig>, other: &Vec<FileSig>) -> (r: Vec<String>)
    ensures
        views_of(r@) == diff_added(views_of(from@), views_of(other@)),
{
    let ghost s = views_of(other@);
    let mut out: Vec<String> = Vec::new();
    let mut j: usize = 0;
    proof {
        reveal(Seq::filter);
        assert(s.take(0) =~= Seq::<FileSigView>::empty());
        assert(s.take(0).filter(absent_in(views_of(from@))) =~= Seq::<FileSigView>::empty());
        assert(views_of(out@) =~= paths_of(s.take(0).filter(absent_in(views_of(from@)))));
    }
    while j < other.len()
        invariant
            j <= other.len(),
            s == views_of(other@),
            views_of(out@) == paths_of(s.take(j as int).filter(absent_in(views_of(from@)))),
        decreases other.len() - j,
    {
        proof {
            reveal(Seq::filter);
            assert(s.take(j + 1).drop_last() =~= s.take(j as int));
            assert(s.take(j + 1).last() == s[j as int]);
        }
        let hit = find_sig(from, &other[j].path);
        if hit.is_none() {
            let ghost prev = views_of(out@);
            out.push(other[j].path.clone());
            proof {
                assert(views_of(out@) =~= prev.push(s[j as int].path));
                assert(paths_of(s.take(j + 1).filter(absent_in(views_of(from@)))) =~= paths_of(
                    s.take(j as int).filter(absent_in(views_of(from@))),
                ).push(s[j as int].path));
            }
        } else {
            proof {
                assert(has_key(views_of(from@), fs_key(), s[j as int].path));
                assert(paths_of(s.take(j + 1).filter(absent_in(views_of(from@)))) =~= paths_of(
                    s.take(j as int).filter(absent_in(views_of(from@))),
                ));
            }
        }
        j = j + 1;
    }
    proof {
        assert(s.take(other@.len() as int) =~= s);
    }
    out
}

/// The paths of `other` recorded in `from` under a different signature.
fn diff_modified_exec(from: &Vec<FileSig>, other: &Vec<FileSig>) -> (r: Vec<String>)
    ensures
        views_of(r@) == diff_modified(views_of(from@), views_of(other@)),
{
    let ghost s = views_of(other@);
    let mut out: Vec<String> = Vec::new();
    let mut j: usize = 0;
    proof {
        reveal(Seq::filter);
        assert(s.take(0) =~= Seq::<FileSigView>::empty());
        assert(s.take(0).filter(changed_in(views_of(from@))) =~= Seq::<FileSigView>::empty());
        assert(views_of(out@) =~= paths_of(s.take(0).filter(changed_in(views_of(from@)))));
    }
    while j < other.len()
        invariant
            j <= other.len(),
            s == views_of(other@),
            views_of(out@) == paths_of(s.take(j as int).filter(changed_in(views_of(from@)))),
        decreases other.len() - j,
    {
        proof {
            reveal(Seq::filter);
            assert(s.take(j + 1).drop_last() =~= s.take(j as int));
            assert(s.take(j + 1).last() == s[j as int]);
        }
        let hit = find_sig(from, &other[j].path);
        let changed = match hit {
            Some(i) => {
                proof {
                    lemma_first_key_index(views_of(from@), fs_key(), s[j as int].path);
                    assert(i as int == first_key_index(views_of(from@), fs_key(), s[j as int].path));
                }
                !str_eq(from[i].modified.as_str(), other[j].modified.as_str())
            },
            None => false,
        };
        if changed {
            let ghost prev = views_of(out@);
            out.push(other[j].path.clone());
            proof {
                assert(views_of(out@) =~= prev.push(s[j as int].path));
                assert(paths_of(s.take(j + 1).filter(changed_in(views_of(from@)))) =~= paths_of(
                    s.take(j as int).filter(changed_in(views_of(from@))),
                ).push(s[j as int].path));
            }
        } else {
            proof {
                assert(!(changed_in(views_of(from@))(s[j as int])));
                assert(paths_of(s.take(j + 1).filter(changed_in(views_of(from@)))) =~= paths_of(
                    s.take(j as int).filter(changed_in(views_of(from@))),
                ));
            }
        }
        j = j + 1;
    }
    proof {
        assert(s.take(other@.len() as int) =~= s);
    }
    out
}

} // verus!
