//! The catalog orchestrator: the one stateful aggregate the command layer
//! talks to. It owns the in-memory snapshot (songs, derived releases and
//! artists, playlists, curated lists, recents, watched roots), funnels
//! every mutation through the entity controllers, and republishes the
//! derived views after each change, so the published views always equal a
//! fresh recomputation from the current song set.

use vstd::prelude::*;
use crate::controller::alist::AlistController;
use crate::controller::artist::ArtistController;
use crate::controller::list::PlaylistController;
use crate::controller::lyric::LyricController;
use crate::controller::pic::PicController;
use crate::controller::recent::RecentController;
use crate::controller::release::ReleaseController;
use crate::controller::song::LoadPlan;
use crate::controller::song::SongController;
use crate::controller::song::plan_spec;
use crate::controller::song::sort_by_title;
use crate::controller::song::sorted_by_title;
use crate::controller::song::replace_songs_spec;
use crate::dir::FileSig;
use crate::entity::alist::Alist;
use crate::entity::list::Playlist;
use crate::entity::recent::Recent;
use crate::entity::release::Release;
use crate::entity::artist::Artist;
use crate::entity::song::Song;
use crate::entity::song::SongView;
use crate::entity::song::song_key;
use crate::error::CoreError;
use crate::error::CoreResult;
use crate::filesystem::FileSystem;
use crate::model::dedup_by;
use crate::model::dup_strings;
use crate::model::has_key;
use crate::model::lemma_views_of_index;
use crate::model::lemma_views_of_len;
use crate::model::not_in;
use crate::model::remove_keys;
use crate::model::views_of;
use crate::op::artist::artists_spec;
use crate::op::list::has_pl;
use crate::op::recent::rec_not_in;
use crate::op::release::releases_spec;
use crate::op::song::add_songs_spec;
use crate::paths::join_spec;
use crate::paths::join_path;
use crate::sm::StoreManager;
use crate::sm::load_model;

verus! {

broadcast use lemma_views_of_index, lemma_views_of_len;

/// The catalog: snapshot state, watched filesystem, and one controller per
/// collection.
pub struct Library {
    pub song_info: Vec<Song>,
    pub release_info: Vec<Release>,
    pub artist_info: Vec<Artist>,
    pub playlist: Vec<Playlist>,
    pub alist: Vec<Alist>,
    pub recent: Vec<Recent>,
    pub dir_path: Vec<String>,
    pub fs: FileSystem,
    pub song_controller: SongController,
    pub release_controller: ReleaseController,
    pub pic_controller: PicController,
    pub lyric_controller: LyricController,
    pub artist_controller: ArtistController,
    pub playlist_controller: PlaylistController,
    pub alist_controller: AlistController,
    pub recent_controller: RecentController,
}

impl Library {
    /// The published derived views equal a fresh recomputation from the
    /// published song set: no stale grouping survives a mutation.
    pub open spec fn views_ok(&self) -> bool {
        &&& views_of(self.release_info@) == releases_spec(views_of(self.song_info@))
        &&& views_of(self.artist_info@) == artists_spec(views_of(self.song_info@))
    }

    /// The orchestrator's invariant: the filesystem state and every keyed
    /// store are well-formed, and the derived views are consistent.
    pub open spec fn inv(&self) -> bool {
        &&& self.fs.inv()
        &&& self.song_controller.inv()
        &&& self.playlist_controller.inv()
        &&& self.alist_controller.inv()
        &&& self.views_ok()
    }

    /// Assembles the catalog over an already-wired filesystem and the four
    /// document stores; every snapshot starts empty until a load runs.
    pub fn init(
        fs: FileSystem,
        songs: StoreManager<Song>,
        playlists: StoreManager<Playlist>,
        alists: StoreManager<Alist>,
        recents: StoreManager<Recent>,
        releases: StoreManager<Song>,
        artists: StoreManager<Song>,
    ) -> (r: Library)
        requires
            fs.inv(),
            match load_model(songs.model()) {
                Some(s) => crate::model::unique_keys(s, song_key()),
                None => true,
            },
            match load_model(playlists.model()) {
                Some(s) => crate::op::list::unique_pl(s),
                None => true,
            },
            match load_model(alists.model()) {
                Some(s) => crate::model::unique_keys(s, crate::entity::alist::al_key()),
                None => true,
            },
        ensures
            r.inv(),
            r.song_info@.len() == 0,
            r.release_info@.len() == 0,
            r.artist_info@.len() == 0,
            r.playlist@.len() == 0,
            r.alist@.len() == 0,
            r.recent@.len() == 0,
            views_of(r.dir_path@) == fs.roots(),
            r.song_controller.contents() == load_model(songs.model()),
            r.playlist_controller.contents() == load_model(playlists.model()),
            r.alist_controller.contents() == load_model(alists.model()),
            r.recent_controller.contents() == load_model(recents.model()),
    {
        let dir_path = fs.glob_dirs();
        let song_info: Vec<Song> = Vec::new();
        let release_info: Vec<Release> = Vec::new();
        let artist_info: Vec<Artist> = Vec::new();
        let playlist: Vec<Playlist> = Vec::new();
        let alist: Vec<Alist> = Vec::new();
        let recent: Vec<Recent> = Vec::new();
        proof {
            assert(views_of(song_info@) =~= Seq::<SongView>::empty());
            assert(views_of(release_info@) =~= releases_spec(views_of(song_info@)));
            assert(views_of(artist_info@) =~= artists_spec(views_of(song_info@)));
        }
        Library {
            song_info,
            release_info,
            artist_info,
            playlist,
            alist,
            recent,
            dir_path,
            fs,
            song_controller: SongController::new(songs),
            release_controller: ReleaseController::new(releases),
            pic_controller: PicController::new(),
            lyric_controller: LyricController::new(),
            artist_controller: ArtistController::new(artists),
            playlist_controller: PlaylistController::new(playlists),
            alist_controller: AlistController::new(alists),
            recent_controller: RecentController::new(recents),
        }
    }

    /// Plans a bulk load for the given scanned files: which cached records
    /// to keep, which files to re-parse with their scores preserved, and
    /// which to parse fresh.
    pub fn plan_load(&self, files: &Vec<FileSig>) -> (r: CoreResult<LoadPlan>)
        requires
            self.inv(),
        ensures
            match self.song_controller.contents() {
                None => r == Err::<LoadPlan, CoreError>(CoreError::StorageCorrupt),
                Some(s) => r matches Ok(plan) && {
                    let p = plan_spec(s, views_of(files@));
                    &&& views_of(plan.kept@) == p.0
                    &&& views_of(plan.reparse@) == p.1
                    &&& views_of(plan.fresh@) == p.2
                },
            },
    {
        self.song_controller.plan_refresh(files)
    }

    /// Persists an in-progress batch of loaded records, so a long scan
    /// interrupted by a crash keeps its completed work. Duplicated paths
    /// keep their first record; the snapshots are not republished yet.
    pub fn save_progress(&mut self, songs: &Vec<Song>)
        requires
            old(self).inv(),
        ensures
            final(self).inv(),
            final(self).song_controller.contents() == Some(
                dedup_by(views_of(songs@), song_key(), Set::empty()),
            ),
            final(self).views_ok(),
    {
        self.song_controller.op.save_all(songs);
    }

    /// Completes a bulk load: overwrites the song store with the loaded
    /// records, republishes the song snapshot, in title order, and both
    /// derived views, and reloads the playlist, curated-list and recent
    /// snapshots. The call succeeds if and only if those three stores are
    /// readable.
    pub fn finish_load(&mut self, songs: &Vec<Song>) -> (r: CoreResult<()>)
        requires
            old(self).inv(),
        ensures
            final(self).inv(),
            final(self).song_controller.contents() == Some(
                dedup_by(views_of(songs@), song_key(), Set::empty()),
            ),
            views_of(final(self).song_info@) == sort_by_title(
                dedup_by(views_of(songs@), song_key(), Set::empty()),
            ),
            final(self).playlist_controller.contents() == old(self).playlist_controller.contents(),
            final(self).alist_controller.contents() == old(self).alist_controller.contents(),
            final(self).recent_controller.contents() == old(self).recent_controller.contents(),
            match old(self).playlist_controller.contents() {
                None => r == Err::<(), CoreError>(CoreError::StorageCorrupt),
                Some(ps) => views_of(final(self).playlist@) == ps && (match old(self).alist_controller.contents() {
                    None => r == Err::<(), CoreError>(CoreError::StorageCorrupt),
                    Some(als) => views_of(final(self).alist@) == als && (match old(self).recent_controller.contents() {
                        None => r == Err::<(), CoreError>(CoreError::StorageCorrupt),
                        Some(rs) => r is Ok && views_of(final(self).recent@) == rs,
                    }),
                }),
            },
    {
        self.song_controller.op.save_all(songs);
        let loaded = self.song_controller.op.list_all();
        let fresh = match loaded {
            Ok(v) => v,
            Err(_) => {
                proof {
                    assert(false);
                }
                return Err(CoreError::StorageCorrupt);
            },
        };
        self.song_info = sorted_by_title(&fresh);
        self.release_info = self.release_controller.from_songs(&self.song_info);
        self.artist_info = self.artist_controller.from_songs(&self.song_info);
        let lists = self.playlist_controller.op.list_all();
        match lists {
            Ok(v) => {
                self.playlist = v;
            },
            Err(e) => {
                return Err(e);
            },
        }
        let alists = self.alist_controller.op.list_all();
        match alists {
            Ok(v) => {
                self.alist = v;
            },
            Err(e) => {
                return Err(e);
            },
        }
        let recents = self.recent_controller.op.list_all();
        match recents {
            Ok(v) => {
                self.recent = v;
            },
            Err(e) => {
                return Err(e);
            },
        }
        Ok(())
    }

    /// Incorporates newly parsed files reported by the watcher: inserts
    /// them with set semantics and republishes the snapshot and views.
    pub fn on_file_added(&mut self, parsed: &Vec<Song>) -> (r: CoreResult<()>)
        requires
            old(self).inv(),
        ensures
            final(self).inv(),
            match old(self).song_controller.contents() {
                None => r == Err::<(), CoreError>(CoreError::StorageCorrupt),
                Some(s) => r is Ok && final(self).song_controller.contents() == Some(
                    add_songs_spec(s, views_of(parsed@)),
                ) && views_of(final(self).song_info@) == sort_by_title(
                    add_songs_spec(s, views_of(parsed@)),
                ),
            },
    {
        let added = self.song_controller.op.add_save(parsed);
        if let Err(e) = added {
            return Err(e);
        }
        self.republish()
    }

    /// Incorporates re-parsed records for modified files: replaces each
    /// record by path, keeping any stored score, and republishes.
    pub fn on_file_modified(&mut self, parsed: &Vec<Song>) -> (r: CoreResult<()>)
        requires
            old(self).inv(),
        ensures
            final(self).inv(),
            match old(self).song_controller.contents() {
                None => r == Err::<(), CoreError>(CoreError::StorageCorrupt),
                Some(s) => match replace_songs_spec(s, views_of(parsed@), true) {
                    Some(s2) => r is Ok && final(self).song_controller.contents() == Some(s2)
                        && views_of(final(self).song_info@) == sort_by_title(s2),
                    None => r == Err::<(), CoreError>(CoreError::NotFound) && final(self).song_controller.contents() == old(self).song_controller.contents(),
                },
            },
    {
        let replaced = self.song_controller.replace_songs(parsed, true);
        if let Err(e) = replaced {
            return Err(e);
        }
        self.republish()
    }

    /// Incorporates removals reported by the watcher: deletes the records
    /// by path, scrubs the paths from every playlist and from the recent
    /// list, and republishes the snapshot, in title order, and the views.
    /// Once the paths are known, the call succeeds if and only if the
    /// playlist and recent stores are readable.
    pub fn on_file_removed(&mut self, files: &Vec<String>) -> (r: CoreResult<()>)
        requires
            old(self).inv(),
        ensures
            final(self).inv(),
            match old(self).song_controller.contents() {
                None => r == Err::<(), CoreError>(CoreError::StorageCorrupt),
                Some(s) => match remove_keys(s, song_key(), views_of(files@)) {
                    None => r == Err::<(), CoreError>(CoreError::NotFound) && final(self).song_controller.contents() == old(self).song_controller.contents()
                        && final(self).playlist_controller.contents() == old(self).playlist_controller.contents()
                        && final(self).recent_controller.contents() == old(self).recent_controller.contents(),
                    Some(s2) => final(self).song_controller.contents() == Some(s2) && (match old(self).playlist_controller.contents() {
                        None => r == Err::<(), CoreError>(CoreError::StorageCorrupt)
                            && final(self).playlist_controller.contents() == old(self).playlist_controller.contents()
                            && final(self).recent_controller.contents() == old(self).recent_controller.contents(),
                        Some(ps) => (final(self).playlist_controller.contents() matches Some(ps2)
                            && ps2.len() == ps.len() && (forall|k: int|
                            0 <= k < ps.len() ==> (#[trigger] ps2[k]).name == ps[k].name
                                && ps2[k].songs == ps[k].songs.filter(not_in(views_of(files@))))
                            && views_of(final(self).playlist@) == ps2 && (match old(self).recent_controller.contents() {
                            None => r == Err::<(), CoreError>(CoreError::StorageCorrupt),
                            Some(rs) => r is Ok && final(self).recent_controller.contents() == Some(
                                rs.filter(rec_not_in(views_of(files@))),
                            ) && views_of(final(self).recent@) == rs.filter(
                                rec_not_in(views_of(files@)),
                            ) && views_of(final(self).song_info@) == sort_by_title(s2),
                        })),
                    }),
                },
            },
    {
        let removed = self.song_controller.op.remove_by_files(files);
        if let Err(e) = removed {
            return Err(e);
        }
        let scrub = dup_strings(files);
        let scrubbed = self.playlist_controller.op.remove_song_path_all(scrub);
        if let Err(e) = scrubbed {
            return Err(e);
        }
        let lists = self.playlist_controller.op.list_all();
        match lists {
            Ok(v) => {
                self.playlist = v;
            },
            Err(_) => {
                proof {
                    assert(false);
                }
                return Err(CoreError::StorageCorrupt);
            },
        }
        let recents_scrubbed = self.recent_controller.op.remove_by_song_paths(dup_strings(files));
        if let Err(e) = recents_scrubbed {
            return Err(e);
        }
        let recents = self.recent_controller.op.list_all();
        match recents {
            Ok(v) => {
                self.recent = v;
            },
            Err(_) => {
                proof {
                    assert(false);
                }
                return Err(CoreError::StorageCorrupt);
            },
        }
        self.republish()
    }

    /// Replaces one song's record and republishes.
    pub fn update_song_info(&mut self, new_song: &Song) -> (r: CoreResult<()>)
        requires
            old(self).inv(),
        ensures
            final(self).inv(),
            match old(self).song_controller.contents() {
                None => r == Err::<(), CoreError>(CoreError::StorageCorrupt),
                Some(s) => if !has_key(s, song_key(), new_song@.path) {
                    r == Err::<(), CoreError>(CoreError::NotFound) && final(self).song_controller.contents() == old(self).song_controller.contents()
                } else {
                    r is Ok && exists|i: int|
                        0 <= i < s.len() && (#[trigger] s[i]).path == new_song@.path && final(self).song_controller.contents() == Some(s.update(i, new_song@))
                            && views_of(final(self).song_info@) == sort_by_title(
                            s.update(i, new_song@),
                        )
                },
            },
    {
        let modified = self.song_controller.op.modify(new_song);
        if let Err(e) = modified {
            return Err(e);
        }
        self.republish()
    }

    /// Replaces several songs' records in one atomic step and republishes.
    pub fn update_multi_song_info(&mut self, new_songs: &Vec<Song>) -> (r: CoreResult<()>)
        requires
            old(self).inv(),
        ensures
            final(self).inv(),
            match old(self).song_controller.contents() {
                None => r == Err::<(), CoreError>(CoreError::StorageCorrupt),
                Some(s) => match replace_songs_spec(s, views_of(new_songs@), false) {
                    Some(s2) => r is Ok && final(self).song_controller.contents() == Some(s2)
                        && views_of(final(self).song_info@) == sort_by_title(s2),
                    None => r == Err::<(), CoreError>(CoreError::NotFound) && final(self).song_controller.contents() == old(self).song_controller.contents(),
                },
            },
    {
        let replaced = self.song_controller.replace_songs(new_songs, false);
        if let Err(e) = replaced {
            return Err(e);
        }
        self.republish()
    }

    /// Records that the system itself is about to rewrite the song's file,
    /// so the watcher swallows the next modification event for it, then
    /// replaces the record with the rewritten file's timestamps and
    /// republishes.
    pub fn update_song_tags(&mut self, song: &Song, created_at: String, updated_at: String) -> (r:
        CoreResult<()>)
        requires
            old(self).inv(),
        ensures
            final(self).inv(),
            old(self).fs.ignored().contains(song@.path) ==> final(self).fs.ignored() == old(self).fs.ignored(),
            !old(self).fs.ignored().contains(song@.path) ==> final(self).fs.ignored() == old(self).fs.ignored().push(song@.path),
            match old(self).song_controller.contents() {
                None => r == Err::<(), CoreError>(CoreError::StorageCorrupt),
                Some(s) => if !has_key(s, song_key(), song@.path) {
                    r == Err::<(), CoreError>(CoreError::NotFound) && final(self).song_controller.contents() == old(self).song_controller.contents()
                } else {
                    r is Ok && exists|i: int|
                        0 <= i < s.len() && (#[trigger] s[i]).path == song@.path && final(self).song_controller.contents() == Some(
                            s.update(
                                i,
                                (SongView {
                                    path: song@.path,
                                    title: song@.title,
                                    duration: song@.duration,
                                    score: song@.score,
                                    created_at: created_at@,
                                    updated_at: updated_at@,
                                    artist: song@.artist,
                                    release: song@.release,
                                }),
                            ),
                        ) && views_of(final(self).song_info@) == sort_by_title(
                            s.update(
                                i,
                                (SongView {
                                    path: song@.path,
                                    title: song@.title,
                                    duration: song@.duration,
                                    score: song@.score,
                                    created_at: created_at@,
                                    updated_at: updated_at@,
                                    artist: song@.artist,
                                    release: song@.release,
                                }),
                            ),
                        )
                },
            },
    {
        self.fs.ignore_next_modify(&song.path);
        let mut updated = song.clone();
        updated.created_at = created_at;
        updated.updated_at = updated_at;
        let modified = self.song_controller.op.modify(&updated);
        if let Err(e) = modified {
            return Err(e);
        }
        self.republish()
    }

    /// Begins watching a root with its initial scan and refreshes the
    /// published root list; the caller re-runs a full load afterwards,
    /// since the file population changed.
    pub fn add_dir(&mut self, path: String, entries: Vec<FileSig>, exts: &Vec<String>) -> (r:
        CoreResult<()>)
        requires
            old(self).inv(),
        ensures
            final(self).inv(),
            views_of(final(self).dir_path@) == final(self).fs.roots(),
            if old(self).fs.roots().contains(path@) {
                r == Err::<(), CoreError>(CoreError::AlreadyWatched) && final(self).fs.roots()
                    == old(self).fs.roots()
            } else {
                r is Ok && final(self).fs.roots() == old(self).fs.roots().push(path@)
            },
    {
        let ghost rootsbefore = self.fs.roots();
        let added = self.fs.add_dir(path, entries, exts);
        self.dir_path = self.fs.glob_dirs();
        proof {
            if added is Ok {
                assert(self.fs.roots() =~= rootsbefore.push(
                    self.fs.dirs_view().last().path,
                ));
            }
        }
        added
    }

    /// Stops watching a root and refreshes the published root list; the
    /// caller re-runs a full load afterwards.
    pub fn remove_dir(&mut self, path: &String) -> (r: CoreResult<()>)
        requires
            old(self).inv(),
        ensures
            final(self).inv(),
            views_of(final(self).dir_path@) == final(self).fs.roots(),
            if old(self).fs.roots().contains(path@) {
                r is Ok
            } else {
                r == Err::<(), CoreError>(CoreError::NotWatched) && final(self).fs.roots() == old(self).fs.roots()
            },
    {
        let removed = self.fs.remove_dir(path);
        self.dir_path = self.fs.glob_dirs();
        removed
    }

    /// Where an imported file would land: its name joined onto the
    /// dedicated library directory, the first watched root. Fails when no
    /// root is watched yet.
    pub fn single_song_target(&self, file_name: &String) -> (r: CoreResult<String>)
        ensures
            if self.dir_path@.len() > 0 {
                r matches Ok(p) && p@ == join_spec(self.dir_path@[0]@, file_name@)
            } else {
                r == Err::<String, CoreError>(CoreError::FsOperationFailed)
            },
    {
        if self.dir_path.len() == 0 {
            return Err(CoreError::FsOperationFailed);
        }
        Ok(join_path(self.dir_path[0].as_str(), file_name.as_str()))
    }

    /// Freezes a curated list into a playlist: the list's elements flatten,
    /// in encounter order, into a new playlist under the list's name, the
    /// list leaves its store in the same operation, and both snapshots are
    /// republished. The new playlist is refused if the name is taken; the
    /// list is gone either way, as freezing removed it first.
    pub fn freeze_alist(&mut self, name: String) -> (r: CoreResult<()>)
        requires
            old(self).inv(),
        ensures
            final(self).inv(),
            match old(self).alist_controller.contents() {
                None => (r matches Err(e) && e == CoreError::StorageCorrupt) && final(self).alist_controller.contents() == old(self).alist_controller.contents(),
                Some(s) => if !crate::model::has_key(s, crate::entity::alist::al_key(), name@) {
                    r == Err::<(), CoreError>(CoreError::NotFound) && final(self).alist_controller.contents() == old(self).alist_controller.contents()
                        && final(self).playlist_controller.contents() == old(self).playlist_controller.contents()
                } else {
                    exists|i: int|
                        0 <= i < s.len() && (#[trigger] s[i]).name == name@ && final(self).alist_controller.contents() == Some(s.remove(i))
                            && (match old(self).playlist_controller.contents() {
                            None => r == Err::<(), CoreError>(CoreError::StorageCorrupt),
                            Some(ps) => if has_pl(ps, name@) {
                                r == Err::<(), CoreError>(CoreError::AlreadyExists) && final(self).playlist_controller.contents() == old(self).playlist_controller.contents()
                            } else {
                                r is Ok && final(self).playlist_controller.contents() == Some(
                                    ps.push(
                                        (crate::entity::list::PlaylistView {
                                            name: s[i].name,
                                            created_at: s[i].created_at,
                                            songs: crate::entity::alist::flat_songs(s[i].elements),
                                        }),
                                    ),
                                ) && views_of(final(self).playlist@) == ps.push(
                                    (crate::entity::list::PlaylistView {
                                        name: s[i].name,
                                        created_at: s[i].created_at,
                                        songs: crate::entity::alist::flat_songs(s[i].elements),
                                    }),
                                )
                            },
                        })
                },
            },
    {
        let frozen = self.alist_controller.op.freeze(name);
        let playlist = match frozen {
            Ok(p) => p,
            Err(e) => {
                return Err(e);
            },
        };
        let alists = self.alist_controller.op.list_all();
        match alists {
            Ok(v) => {
                self.alist = v;
            },
            Err(_) => {
                proof {
                    assert(false);
                }
                return Err(CoreError::StorageCorrupt);
            },
        }
        let inserted = self.playlist_controller.op.insert(&playlist);
        if let Err(e) = inserted {
            return Err(e);
        }
        let lists = self.playlist_controller.op.list_all();
        match lists {
            Ok(v) => {
                self.playlist = v;
            },
            Err(_) => {
                proof {
                    assert(false);
                }
                return Err(CoreError::StorageCorrupt);
            },
        }
        Ok(())
    }

    /// Republishes the song snapshot and both derived views from the song
    /// store; callable only while the store is readable.
    fn republish(&mut self) -> (r: CoreResult<()>)
        requires
            old(self).song_controller.contents() is Some,
            old(self).inv(),
        ensures
            r is Ok,
            final(self).inv(),
            final(self).song_controller == old(self).song_controller,
            final(self).playlist_controller == old(self).playlist_controller,
            final(self).alist_controller == old(self).alist_controller,
            final(self).recent_controller == old(self).recent_controller,
            final(self).fs == old(self).fs,
            final(self).playlist == old(self).playlist,
            final(self).alist == old(self).alist,
            final(self).recent == old(self).recent,
            final(self).dir_path == old(self).dir_path,
            match old(self).song_controller.contents() {
                Some(c) => views_of(final(self).song_info@) == sort_by_title(c),
                None => false,
            },
    {
        let loaded = self.song_controller.op.list_all();
        let fresh = match loaded {
            Ok(v) => v,
            Err(_) => {
                proof {
                    assert(false);
                }
                return Err(CoreError::StorageCorrupt);
            },
        };
        self.song_info = sorted_by_title(&fresh);
        self.release_info = self.release_controller.from_songs(&self.song_info);
        self.artist_info = self.artist_controller.from_songs(&self.song_info);
        Ok(())
    }
}

} // verus!
