//! The filesystem facade: the watched roots with their snapshots, the
//! routing of raw change notifications to affected roots, and the
//! self-write suppression that keeps the system's own writes from echoing
//! back as change events.

use vstd::prelude::*;
use crate::dir::Dir;
use crate::dir::DirView;
use crate::dir::FileSig;
use crate::dir::diff_added;
use crate::dir::diff_modified;
use crate::dir::diff_removed;
use crate::dir::fs_key;
use crate::dir::snapshot_of;
use crate::error::CoreError;
use crate::error::CoreResult;
use crate::model::contains_string;
use crate::model::first_key_index;
use crate::model::has_key;
use crate::model::lemma_first_key_index;
use crate::model::lemma_views_of_index;
use crate::model::lemma_views_of_len;
use crate::model::str_id;
use crate::model::unique_keys;
use crate::model::views_of;
use crate::paths::is_under;
use crate::paths::path_is_under;
use crate::watch::DirectoryWatcher;

verus! {

broadcast use lemma_views_of_index, lemma_views_of_len;

/// The diff a routed change burst produced for one root, after self-write
/// suppression.
#[derive(Debug)]
pub struct FsEvents {
    pub removed: Vec<String>,
    pub added: Vec<String>,
    pub modified: Vec<String>,
}

/// The root a directory view carries.
pub open spec fn root_of() -> spec_fn(DirView) -> Seq<char> {
    |d: DirView| d.path
}

/// The roots of which some event path lies at or under them.
pub open spec fn touched(events: Seq<Seq<char>>) -> spec_fn(Seq<char>) -> bool {
    |root: Seq<char>| exists|k: int| 0 <= k < events.len() && is_under(#[trigger] events[k], root)
}

/// A path's first occurrence dropped from a list.
pub open spec fn remove_first_str(s: Seq<Seq<char>>, p: Seq<char>) -> Seq<Seq<char>> {
    s.remove(first_key_index(s, str_id(), p))
}

/// Self-write suppression over one burst's modified paths: a path with a
/// pending ignore entry is dropped and consumes that entry; every other
/// path is forwarded. The result is the forwarded paths and the ignore
/// list that remains.
pub open spec fn suppress(modified: Seq<Seq<char>>, ignored: Seq<Seq<char>>) -> (
    Seq<Seq<char>>,
    Seq<Seq<char>>,
)
    decreases modified.len(),
{
    if modified.len() == 0 {
        (Seq::empty(), ignored)
    } else if ignored.contains(modified[0]) {
        suppress(modified.skip(1), remove_first_str(ignored, modified[0]))
    } else {
        let r = suppress(modified.skip(1), ignored);
        (seq![modified[0]] + r.0, r.1)
    }
}

/// Self-write suppression acts exactly once per pending entry: a modified
/// event for a pending path is dropped and consumes its entry, so that
/// with no duplicate entries a second event for the same path is forwarded
/// normally; an event for a path with no pending entry is forwarded with
/// the pending list untouched.
pub proof fn lemma_self_write_suppression(p: Seq<char>, ignored: Seq<Seq<char>>)
    ensures
        ignored.contains(p) ==> suppress(seq![p], ignored).0 == Seq::<Seq<char>>::empty(),
        !ignored.contains(p) ==> suppress(seq![p], ignored).0 == seq![p] && suppress(
            seq![p],
            ignored,
        ).1 == ignored,
        ignored.contains(p) && unique_keys(ignored, str_id()) ==> !suppress(
            seq![p],
            ignored,
        ).1.contains(p),
{
    let e: Seq<Seq<char>> = Seq::empty();
    assert(seq![p][0] == p);
    assert(seq![p].skip(1) =~= e);
    assert(suppress(e, ignored) == (e, ignored));
    assert(suppress(e, remove_first_str(ignored, p)) == (e, remove_first_str(ignored, p)));
    if ignored.contains(p) {
        lemma_str_has_key(ignored, p);
        lemma_first_key_index(ignored, str_id(), p);
        let f = first_key_index(ignored, str_id(), p);
        assert(suppress(seq![p], ignored).1 == ignored.remove(f));
        if unique_keys(ignored, str_id()) {
            assert(!ignored.remove(f).contains(p)) by {
                if ignored.remove(f).contains(p) {
                    let q = choose|q: int|
                        0 <= q < ignored.remove(f).len() && ignored.remove(f)[q] == p;
                    if q < f {
                        assert(str_id()(ignored[q]) == str_id()(ignored[f]));
                    } else {
                        assert(ignored.remove(f)[q] == ignored[q + 1]);
                        assert(str_id()(ignored[q + 1]) == str_id()(ignored[f]));
                    }
                }
            }
        }
    } else {
        assert(suppress(seq![p], ignored).0 =~= seq![p] + Seq::<Seq<char>>::empty());
        assert(seq![p] + Seq::<Seq<char>>::empty() =~= seq![p]);
    }
}

/// Membership of a path equals membership under the identity key.
proof fn lemma_str_has_key(s: Seq<Seq<char>>, p: Seq<char>)
    ensures
        has_key(s, str_id(), p) <==> s.contains(p),
{
    if has_key(s, str_id(), p) {
        let k = choose|k: int| 0 <= k < s.len() && str_id()(#[trigger] s[k]) == p;
        assert(s[k] == p);
    }
    if s.contains(p) {
        let k = choose|k: int| 0 <= k < s.len() && s[k] == p;
        assert(str_id()(s[k]) == p);
    }
}

/// Finds the first string with the given view.
fn find_str(v: &Vec<String>, x: &String) -> (r: Option<usize>)
    ensures
        match r {
            Some(i) => (i as int) < v@.len() && views_of(v@)[i as int] == x@ && forall|j: int|
                0 <= j < i ==> #[trigger] views_of(v@)[j] != x@,
            None => forall|k: int|
                0 <= k < views_of(v@).len() ==> #[trigger] views_of(v@)[k] != x@,
        },
{
    let mut i: usize = 0;
    while i < v.len()
        invariant
            i <= v.len(),
            forall|j: int| 0 <= j < i ==> #[trigger] views_of(v@)[j] != x@,
        decreases v.len() - i,
    {
        if x.eq(&v[i]) {
            return Some(i);
        }
        i = i + 1;
    }
    None
}

/// Finds the first watched directory with the given root.
fn find_dir(v: &Vec<Dir>, root: &String) -> (r: Option<usize>)
    ensures
        match r {
            Some(i) => (i as int) < v@.len() && views_of(v@)[i as int].path == root@ && forall|
                j: int,
            | 0 <= j < i ==> (#[trigger] views_of(v@)[j]).path != root@,
            None => forall|k: int|
                0 <= k < views_of(v@).len() ==> (#[trigger] views_of(v@)[k]).path != root@,
        },
{
    let mut i: usize = 0;
    while i < v.len()
        invariant
            i <= v.len(),
            forall|j: int| 0 <= j < i ==> (#[trigger] views_of(v@)[j]).path != root@,
        decreases v.len() - i,
    {
        if root.eq(&v[i].path) {
            return Some(i);
        }
        i = i + 1;
    }
    None
}

/// Runs self-write suppression, as `suppress` describes: the returned
/// paths are forwarded, and consumed ignore entries leave the list.
#[verifier::loop_isolation(false)]
fn suppress_exec(modified: Vec<String>, ignored: &mut Vec<String>) -> (out: Vec<String>)
    ensures
        views_of(out@) == suppress(views_of(modified@), views_of(old(ignored)@)).0,
        views_of(final(ignored)@) == suppress(views_of(modified@), views_of(old(ignored)@)).1,
        unique_keys(views_of(old(ignored)@), str_id()) ==> unique_keys(
            views_of(final(ignored)@),
            str_id(),
        ),
{
    let ghost m0 = views_of(modified@);
    let ghost ig0 = views_of(old(ignored)@);
    let mut out: Vec<String> = Vec::new();
    let mut j: usize = 0;
    proof {
        assert(m0.skip(0) =~= m0);
        assert(views_of(out@) =~= Seq::<Seq<char>>::empty());
        assert(Seq::<Seq<char>>::empty() + suppress(m0, ig0).0 =~= suppress(m0, ig0).0);
    }
    while j < modified.len()
        invariant
            j <= modified.len(),
            m0 == views_of(modified@),
            suppress(m0, ig0).0 == views_of(out@) + suppress(
                m0.skip(j as int),
                views_of(ignored@),
            ).0,
            suppress(m0, ig0).1 == suppress(m0.skip(j as int), views_of(ignored@)).1,
            unique_keys(ig0, str_id()) ==> unique_keys(views_of(ignored@), str_id()),
        decreases modified.len() - j,
    {
        let ghost cur = views_of(ignored@);
        let ghost rest = m0.skip(j as int);
        proof {
            assert(rest[0] == m0[j as int]);
            assert(rest.skip(1) =~= m0.skip(j + 1));
        }
        let hit = find_str(ignored, &modified[j]);
        match hit {
            Some(h) => {
                proof {
                    assert(cur.contains(m0[j as int]));
                    lemma_str_has_key(cur, m0[j as int]);
                    lemma_first_key_index(cur, str_id(), m0[j as int]);
                    assert forall|q: int|
                        0 <= q < first_key_index(cur, str_id(), m0[j as int]) implies #[trigger] cur[q]
                        != m0[j as int] by {
                        assert(str_id()(cur[q]) != m0[j as int]);
                    }
                    assert(h as int == first_key_index(cur, str_id(), m0[j as int]));
                }
                let _ = ignored.remove(h);
                proof {
                    assert(views_of(ignored@) =~= remove_first_str(cur, m0[j as int]));
                }
            },
            None => {
                proof {
                    assert(!cur.contains(m0[j as int])) by {
                        if cur.contains(m0[j as int]) {
                            let q = choose|q: int| 0 <= q < cur.len() && cur[q] == m0[j as int];
                            assert(cur[q] != m0[j as int]);
                        }
                    }
                }
                let ghost prev = views_of(out@);
                out.push(modified[j].clone());
                proof {
                    assert(views_of(out@) =~= prev.push(m0[j as int]));
                    assert(prev + (seq![m0[j as int]] + suppress(m0.skip(j + 1), cur).0)
                        =~= views_of(out@) + suppress(m0.skip(j + 1), cur).0);
                }
            },
        }
        j = j + 1;
    }
    proof {
        assert(m0.skip(m0.len() as int) =~= Seq::<Seq<char>>::empty());
        assert(views_of(out@) + Seq::<Seq<char>>::empty() =~= views_of(out@));
    }
    out
}

/// The watched filesystem state: the registry, one snapshot per root, and
/// the pending self-write ignore list.
#[derive(Debug)]
pub struct FileSystem {
    pub watcher: DirectoryWatcher,
    pub dirs: Vec<Dir>,
    pub ignored_paths: Vec<String>,
}

impl FileSystem {
    /// The watched directories.
    pub open spec fn dirs_view(&self) -> Seq<DirView> {
        views_of(self.dirs@)
    }

    /// The watched roots, in registration order.
    pub open spec fn roots(&self) -> Seq<Seq<char>> {
        self.dirs_view().map_values(root_of())
    }

    /// The pending ignore list.
    pub open spec fn ignored(&self) -> Seq<Seq<char>> {
        views_of(self.ignored_paths@)
    }

    /// The registry and the directory list agree, every snapshot is
    /// well-formed, and the ignore list holds no duplicates.
    pub open spec fn inv(&self) -> bool {
        &&& self.watcher.inv()
        &&& self.roots() == self.watcher.watched()
        &&& forall|d: int|
            0 <= d < self.dirs_view().len() ==> unique_keys(
                (#[trigger] self.dirs_view()[d]).snapshot,
                fs_key(),
            )
        &&& unique_keys(self.ignored(), str_id())
    }

    /// A filesystem with nothing watched and nothing pending.
    pub fn new() -> (r: Self)
        ensures
            r.inv(),
            r.roots() == Seq::<Seq<char>>::empty(),
            r.ignored() == Seq::<Seq<char>>::empty(),
    {
        let watcher = DirectoryWatcher::new();
        let dirs: Vec<Dir> = Vec::new();
        let ignored_paths: Vec<String> = Vec::new();
        proof {
            assert(views_of(dirs@) =~= Seq::<DirView>::empty());
            assert(views_of(dirs@).map_values(root_of()) =~= Seq::<Seq<char>>::empty());
            assert(views_of(ignored_paths@) =~= Seq::<Seq<char>>::empty());
        }
        FileSystem { watcher, dirs, ignored_paths }
    }

    /// Marks a path so that its next modification event is swallowed; a
    /// path already marked is not marked twice.
    pub fn ignore_next_modify(&mut self, path: &String)
        requires
            old(self).inv(),
        ensures
            final(self).inv(),
            final(self).dirs_view() == old(self).dirs_view(),
            final(self).watcher == old(self).watcher,
            if old(self).ignored().contains(path@) {
                final(self).ignored() == old(self).ignored()
            } else {
                final(self).ignored() == old(self).ignored().push(path@)
            },
    {
        let present = contains_string(&self.ignored_paths, path);
        proof {
            assert(views_of(self.ignored_paths@) =~= self.ignored_paths@.map_values(
                |s: String| s@,
            ));
        }
        if !present {
            let ghost ig = self.ignored();
            self.ignored_paths.push(path.clone());
            proof {
                assert(self.ignored() =~= ig.push(path@));
                assert forall|a: int, b: int|
                    0 <= a < b < self.ignored().len() implies str_id()(
                    #[trigger] self.ignored()[a],
                ) != str_id()(#[trigger] self.ignored()[b]) by {
                    if b == self.ignored().len() - 1 {
                        assert(!ig.contains(path@));
                        assert(ig[a] != path@);
                    }
                }
            }
        }
    }

    /// Begins watching a root with the given initial scan; fails with
    /// AlreadyWatched if the root is registered, leaving everything
    /// unchanged.
    pub fn add_dir(&mut self, path: String, entries: Vec<FileSig>, exts: &Vec<String>) -> (r:
        CoreResult<()>)
        requires
            old(self).inv(),
        ensures
            final(self).inv(),
            final(self).ignored() == old(self).ignored(),
            if old(self).roots().contains(path@) {
                r == Err::<(), CoreError>(CoreError::AlreadyWatched) && final(self).dirs_view()
                    == old(self).dirs_view() && final(self).watcher == old(self).watcher
            } else {
                r is Ok && final(self).dirs_view() == old(self).dirs_view().push(
                    (DirView {
                        path: path@,
                        snapshot: snapshot_of(views_of(entries@), exts.deep_view()),
                    }),
                )
            },
    {
        let dir = Dir::init(path.clone(), entries, exts);
        proof {
            assert(old(self).roots() =~= old(self).watcher.watched());
        }
        let watched = self.watcher.watch(path);
        match watched {
            Err(e) => Err(e),
            Ok(()) => {
                let ghost dv = self.dirs_view();
                self.dirs.push(dir);
                proof {
                    assert(self.dirs_view() =~= dv.push(self.dirs@.last()@));
                    assert(self.roots() =~= self.watcher.watched());
                }
                Ok(())
            },
        }
    }

    /// Stops watching a root and drops its snapshot; fails with NotWatched
    /// if the root was never registered, leaving everything unchanged.
    pub fn remove_dir(&mut self, path: &String) -> (r: CoreResult<()>)
        requires
            old(self).inv(),
        ensures
            final(self).inv(),
            final(self).ignored() == old(self).ignored(),
            if old(self).roots().contains(path@) {
                r is Ok && exists|i: int|
                    0 <= i < old(self).dirs_view().len() && (#[trigger] old(self).dirs_view()[i]).path
                        == path@ && final(self).dirs_view() == old(self).dirs_view().remove(i)
            } else {
                r == Err::<(), CoreError>(CoreError::NotWatched) && final(self).dirs_view() == old(
                    self,
                ).dirs_view() && final(self).watcher == old(self).watcher
            },
    {
        proof {
            assert(old(self).roots() =~= old(self).watcher.watched());
        }
        let ghost dv = self.dirs_view();
        let found = find_dir(&self.dirs, path);
        let i = match found {
            Some(i) => i,
            None => {
                proof {
                    assert forall|k: int|
                        0 <= k < self.roots().len() implies #[trigger] self.roots()[k]
                        != path@ by {
                        assert(self.roots()[k] == dv[k].path);
                    }
                    assert(!self.roots().contains(path@));
                }
                return Err(CoreError::NotWatched);
            },
        };
        proof {
            assert(dv[i as int].path == path@);
            assert(self.roots()[i as int] == path@);
        }
        let ghost w0 = old(self).watcher.watched();
        let _ = self.watcher.unwatch(path);
        let ghost wi = choose|k: int|
            0 <= k < w0.len() && w0[k] == path@ && self.watcher.watched() == w0.remove(k);
        let _ = self.dirs.remove(i);
        proof {
            assert(self.dirs_view() =~= dv.remove(i as int));
            // the same root leaves both the registry and the list, at the
            // same position, so the two stay aligned
            assert(i as int == wi) by {
                assert(w0[wi] == path@);
                assert(w0[i as int] == path@);
                if i as int != wi {
                    assert(w0[i as int] != w0[wi]);
                }
            }
            assert(self.roots() =~= self.watcher.watched());
        }
        Ok(())
    }

    /// The watched roots, as copies.
    pub fn glob_dirs(&self) -> (r: Vec<String>)
        ensures
            views_of(r@) == self.roots(),
    {
        let mut r: Vec<String> = Vec::new();
        let mut i: usize = 0;
        proof {
            assert(views_of(r@) =~= self.roots().take(0));
        }
        while i < self.dirs.len()
            invariant
                i <= self.dirs.len(),
                views_of(r@) == self.roots().take(i as int),
            decreases self.dirs.len() - i,
        {
            let ghost prev = views_of(r@);
            r.push(self.dirs[i].path.clone());
            proof {
                assert(self.roots()[i as int] == self.dirs_view()[i as int].path);
                assert(views_of(r@) =~= prev.push(self.roots()[i as int]));
                assert(self.roots().take(i + 1) =~= self.roots().take(i as int).push(
                    self.roots()[i as int],
                ));
            }
            i = i + 1;
        }
        proof {
            assert(self.roots().take(self.dirs@.len() as int) =~= self.roots());
        }
        r
    }

    /// The roots of which some changed path lies at or under them: the
    /// roots a change burst is routed to.
    pub fn affected_roots(&self, event_paths: &Vec<String>) -> (r: Vec<String>)
        ensures
            views_of(r@) == self.roots().filter(touched(views_of(event_paths@))),
    {
        let ghost rs = self.roots();
        let ghost evs = views_of(event_paths@);
        let mut out: Vec<String> = Vec::new();
        let mut i: usize = 0;
        proof {
            reveal(Seq::filter);
            assert(rs.take(0) =~= Seq::<Seq<char>>::empty());
            assert(views_of(out@) =~= rs.take(0).filter(touched(evs)));
        }
        while i < self.dirs.len()
            invariant
                i <= self.dirs.len(),
                rs == self.roots(),
                evs == views_of(event_paths@),
                views_of(out@) == rs.take(i as int).filter(touched(evs)),
            decreases self.dirs.len() - i,
        {
            proof {
                reveal(Seq::filter);
                assert(rs.take(i + 1).drop_last() =~= rs.take(i as int));
                assert(rs.take(i + 1).last() == rs[i as int]);
                assert(rs[i as int] == self.dirs_view()[i as int].path);
            }
            let mut k: usize = 0;
            let mut hit = false;
            while k < event_paths.len()
                invariant
                    k <= event_paths.len(),
                    evs == views_of(event_paths@),
                    i < self.dirs@.len(),
                    rs == self.roots(),
                    hit == exists|q: int|
                        0 <= q < k && is_under(#[trigger] evs[q], rs[i as int]),
                decreases event_paths.len() - k,
            {
                if !hit {
                    let under = path_is_under(
                        event_paths[k].as_str(),
                        self.dirs[i].path.as_str(),
                    );
                    if under {
                        proof {
                            assert(is_under(evs[k as int], rs[i as int]));
                        }
                        hit = true;
                    }
                }
                k = k + 1;
            }
            if hit {
                let ghost prev = views_of(out@);
                out.push(self.dirs[i].path.clone());
                proof {
                    assert(touched(evs)(rs[i as int]));
                    assert(views_of(out@) =~= prev.push(rs[i as int]));
                }
            } else {
                proof {
                    assert(!(touched(evs)(rs[i as int])));
                }
            }
            i = i + 1;
        }
        proof {
            assert(rs.take(self.dirs@.len() as int) =~= rs);
        }
        out
    }

    /// Routes one root's fresh scan: replaces that root's snapshot, diffs
    /// it against the previous one, and runs self-write suppression over
    /// the modified set. Fails with NotWatched if the root is not
    /// registered, leaving everything unchanged.
    pub fn apply_scan(&mut self, root: &String, entries: Vec<FileSig>, exts: &Vec<String>) -> (r:
        CoreResult<FsEvents>)
        requires
            old(self).inv(),
        ensures
            final(self).inv(),
            final(self).watcher == old(self).watcher,
            if !old(self).roots().contains(root@) {
                (r matches Err(e) && e == CoreError::NotWatched) && final(self).dirs_view() == old(
                    self,
                ).dirs_view() && final(self).ignored() == old(self).ignored()
            } else {
                exists|d: int|
                    0 <= d < old(self).dirs_view().len() && (#[trigger] old(self).dirs_view()[d]).path
                        == root@ && final(self).dirs_view() == old(self).dirs_view().update(
                        d,
                        (DirView {
                            path: root@,
                            snapshot: snapshot_of(views_of(entries@), exts.deep_view()),
                        }),
                    ) && (r matches Ok(ev) && views_of(ev.removed@) == diff_removed(
                        old(self).dirs_view()[d].snapshot,
                        snapshot_of(views_of(entries@), exts.deep_view()),
                    ) && views_of(ev.added@) == diff_added(
                        old(self).dirs_view()[d].snapshot,
                        snapshot_of(views_of(entries@), exts.deep_view()),
                    ) && views_of(ev.modified@) == suppress(
                        diff_modified(
                            old(self).dirs_view()[d].snapshot,
                            snapshot_of(views_of(entries@), exts.deep_view()),
                        ),
                        old(self).ignored(),
                    ).0 && final(self).ignored() == suppress(
                        diff_modified(
                            old(self).dirs_view()[d].snapshot,
                            snapshot_of(views_of(entries@), exts.deep_view()),
                        ),
                        old(self).ignored(),
                    ).1)
            },
    {
        let ghost dv = self.dirs_view();
        let found = find_dir(&self.dirs, root);
        let i = match found {
            Some(i) => i,
            None => {
                proof {
                    assert forall|k: int|
                        0 <= k < self.roots().len() implies #[trigger] self.roots()[k]
                        != root@ by {
                        assert(self.roots()[k] == dv[k].path);
                    }
                    assert(!self.roots().contains(root@));
                }
                return Err(CoreError::NotWatched);
            },
        };
        proof {
            assert(dv[i as int].path == root@);
            assert(self.roots()[i as int] == root@);
        }
        let mut d = self.dirs.remove(i);
        let (removed, added, modified) = d.update(entries, exts);
        let ghost newdir = d@;
        self.dirs.insert(i, d);
        proof {
            assert(self.dirs_view() =~~= dv.update(
                i as int,
                (DirView {
                    path: root@,
                    snapshot: snapshot_of(views_of(entries@), exts.deep_view()),
                }),
            ));
            assert(self.roots() =~= old(self).roots());
            assert(self.roots() =~= self.watcher.watched());
        }
        let modified_out = suppress_exec(modified, &mut self.ignored_paths);
        Ok(FsEvents { removed, added, modified: modified_out })
    }

    /// Replaces one root's snapshot with a fresh scan without producing
    /// events; fails with NotWatched if the root is not registered.
    pub fn set_snapshot(&mut self, root: &String, entries: Vec<FileSig>, exts: &Vec<String>) -> (r:
        CoreResult<()>)
        requires
            old(self).inv(),
        ensures
            final(self).inv(),
            final(self).watcher == old(self).watcher,
            final(self).ignored() == old(self).ignored(),
            if !old(self).roots().contains(root@) {
                (r matches Err(e) && e == CoreError::NotWatched) && final(self).dirs_view() == old(
                    self,
                ).dirs_view()
            } else {
                r is Ok && exists|d: int|
                    0 <= d < old(self).dirs_view().len() && (#[trigger] old(self).dirs_view()[d]).path
                        == root@ && final(self).dirs_view() == old(self).dirs_view().update(
                        d,
                        (DirView {
                            path: root@,
                            snapshot: snapshot_of(views_of(entries@), exts.deep_view()),
                        }),
                    )
            },
    {
        let ghost dv = self.dirs_view();
        let found = find_dir(&self.dirs, root);
        let i = match found {
            Some(i) => i,
            None => {
                proof {
                    assert forall|k: int|
                        0 <= k < self.roots().len() implies #[trigger] self.roots()[k]
                        != root@ by {
                        assert(self.roots()[k] == dv[k].path);
                    }
                    assert(!self.roots().contains(root@));
                }
                return Err(CoreError::NotWatched);
            },
        };
        proof {
            assert(dv[i as int].path == root@);
            assert(self.roots()[i as int] == root@);
        }
        let mut d = self.dirs.remove(i);
        d.scan(entries, exts);
        self.dirs.insert(i, d);
        proof {
            assert(self.dirs_view() =~~= dv.update(
                i as int,
                (DirView {
                    path: root@,
                    snapshot: snapshot_of(views_of(entries@), exts.deep_view()),
                }),
            ));
            assert(self.roots() =~= old(self).roots());
            assert(self.roots() =~= self.watcher.watched());
        }
        Ok(())
    }
}

} // verus!
