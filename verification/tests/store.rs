//! The document store and the song and playlist operations: round-trip
//! persistence, key uniqueness, and the error cases of each edit.

use soa_catalog::entity::list::Playlist;
use soa_catalog::entity::song::Song;
use soa_catalog::error::CoreError;
use soa_catalog::entity::alist::Alist;
use soa_catalog::op::alist::normalize_alist_doc;
use soa_catalog::op::list::PlaylistOp;
use soa_catalog::op::list::normalize_playlist_doc;
use soa_catalog::op::song::normalize_song_doc;
use soa_catalog::op::song::SongOp;
use soa_catalog::sm::DocState;
use soa_catalog::sm::StoreManager;

fn song(path: &str, artist: Option<&str>, release: Option<&str>) -> Song {
    Song::new(
        path.to_string(),
        Some(format!("title of {}", path)),
        Some(180),
        None,
        "2024-01-01T00:00:00+00:00".to_string(),
        "2024-01-02T00:00:00+00:00".to_string(),
        artist.map(|a| a.to_string()),
        release.map(|r| r.to_string()),
    )
}

#[test]
fn load_of_absent_document_is_empty() {
    let sm: StoreManager<Song> = StoreManager::new();
    let loaded = sm.load().unwrap();
    assert_eq!(loaded.len(), 0);
}

#[test]
fn load_of_corrupt_document_fails() {
    let sm: StoreManager<Song> = StoreManager::from_document(DocState::Corrupt);
    assert!(matches!(sm.load(), Err(CoreError::StorageCorrupt)));
}

#[test]
fn save_load_round_trip() {
    let mut sm: StoreManager<Song> = StoreManager::new();
    let first = sm.load().unwrap();
    sm.save(&first);
    let again = sm.load().unwrap();
    assert_eq!(again.len(), 0);

    let mut items = Vec::new();
    items.push(song("/m/a.mp3", Some("X"), None));
    items.push(song("/m/b.mp3", None, Some("R")));
    sm.save(&items);
    let loaded = sm.load().unwrap();
    assert_eq!(loaded.len(), 2);
    assert_eq!(loaded[0].path, "/m/a.mp3");
    assert_eq!(loaded[0].artist.as_deref(), Some("X"));
    assert_eq!(loaded[1].path, "/m/b.mp3");
    assert_eq!(loaded[1].release.as_deref(), Some("R"));
    // saving what was freshly loaded changes nothing
    sm.save(&loaded);
    let reloaded = sm.load().unwrap();
    assert_eq!(reloaded.len(), 2);
    assert_eq!(reloaded[0].path, "/m/a.mp3");
    assert_eq!(reloaded[1].path, "/m/b.mp3");
}

#[test]
fn song_add_save_keeps_first_record_per_path() {
    let mut op = SongOp::new(StoreManager::new());
    let mut batch = Vec::new();
    batch.push(song("/m/a.mp3", Some("X"), None));
    batch.push(song("/m/b.mp3", None, None));
    op.add_save(&batch).unwrap();
    let mut second = Vec::new();
    second.push(song("/m/a.mp3", Some("Y"), None));
    second.push(song("/m/c.mp3", None, None));
    op.add_save(&second).unwrap();
    let all = op.list_all().unwrap();
    assert_eq!(all.len(), 3);
    // the record already stored under /m/a.mp3 was kept as it was
    assert_eq!(all[0].artist.as_deref(), Some("X"));
    assert_eq!(all[2].path, "/m/c.mp3");
}

#[test]
fn song_modify_replaces_by_path() {
    let mut op = SongOp::new(StoreManager::new());
    let mut batch = Vec::new();
    batch.push(song("/m/a.mp3", Some("X"), None));
    op.add_save(&batch).unwrap();
    let replacement = song("/m/a.mp3", Some("Z"), Some("New R"));
    op.modify(&replacement).unwrap();
    let all = op.list_all().unwrap();
    assert_eq!(all.len(), 1);
    assert_eq!(all[0].artist.as_deref(), Some("Z"));
    assert!(matches!(
        op.modify(&song("/m/missing.mp3", None, None)),
        Err(CoreError::NotFound)
    ));
}

#[test]
fn song_remove_by_files_aborts_on_missing_path() {
    let mut op = SongOp::new(StoreManager::new());
    let mut batch = Vec::new();
    batch.push(song("/m/a.mp3", None, None));
    batch.push(song("/m/b.mp3", None, None));
    op.add_save(&batch).unwrap();
    let bad = vec!["/m/a.mp3".to_string(), "/m/missing.mp3".to_string()];
    assert!(matches!(op.remove_by_files(&bad), Err(CoreError::NotFound)));
    // the failed batch left the store unchanged
    assert_eq!(op.list_all().unwrap().len(), 2);
    let good = vec!["/m/a.mp3".to_string()];
    op.remove_by_files(&good).unwrap();
    let all = op.list_all().unwrap();
    assert_eq!(all.len(), 1);
    assert_eq!(all[0].path, "/m/b.mp3");
}

#[test]
fn song_filters_by_artist_and_release() {
    let mut op = SongOp::new(StoreManager::new());
    let mut batch = Vec::new();
    batch.push(song("/m/a.mp3", Some("X"), Some("R")));
    batch.push(song("/m/b.mp3", Some("X"), None));
    batch.push(song("/m/c.mp3", None, Some("R")));
    op.add_save(&batch).unwrap();
    let by_x = op.list_by_artist("X").unwrap();
    assert_eq!(by_x.len(), 2);
    let unknown = op.list_unknown_artist().unwrap();
    assert_eq!(unknown.len(), 1);
    assert_eq!(unknown[0].path, "/m/c.mp3");
    let both = op.list_by_artist_release("X", "R").unwrap();
    assert_eq!(both.len(), 1);
    assert_eq!(both[0].path, "/m/a.mp3");
    let no_release = op.list_unknown_release().unwrap();
    assert_eq!(no_release.len(), 1);
    assert_eq!(no_release[0].path, "/m/b.mp3");
}

#[test]
fn playlist_create_rejects_taken_name() {
    let mut op = PlaylistOp::new(StoreManager::new());
    op.create("road trip".to_string()).unwrap();
    assert!(matches!(
        op.create("road trip".to_string()),
        Err(CoreError::AlreadyExists)
    ));
    // the failed create left the store unchanged
    let all = op.list_all().unwrap();
    assert_eq!(all.len(), 1);
    assert_eq!(all[0].name, "road trip");
}

#[test]
fn playlist_rename_checks_both_names() {
    let mut op = PlaylistOp::new(StoreManager::new());
    op.create("one".to_string()).unwrap();
    op.create("two".to_string()).unwrap();
    assert!(matches!(
        op.rename("missing".to_string(), "three".to_string()),
        Err(CoreError::NotFound)
    ));
    assert!(matches!(
        op.rename("one".to_string(), "two".to_string()),
        Err(CoreError::AlreadyExists)
    ));
    op.rename("one".to_string(), "three".to_string()).unwrap();
    let all = op.list_all().unwrap();
    assert_eq!(all[0].name, "three");
    assert_eq!(all[1].name, "two");
}

#[test]
fn playlist_song_edits() {
    let mut op = PlaylistOp::new(StoreManager::new());
    op.create("mix".to_string()).unwrap();
    let mut songs = Vec::new();
    songs.push(song("/m/a.mp3", None, None));
    songs.push(song("/m/b.mp3", None, None));
    songs.push(song("/m/a.mp3", None, None));
    op.add_songs("mix".to_string(), songs).unwrap();
    let got = op.locate("mix".to_string()).unwrap();
    assert_eq!(got.songs, vec!["/m/a.mp3", "/m/b.mp3", "/m/a.mp3"]);

    // duplicates keep their first occurrence
    op.unique("mix".to_string()).unwrap();
    let got = op.locate("mix".to_string()).unwrap();
    assert_eq!(got.songs, vec!["/m/a.mp3", "/m/b.mp3"]);

    // removal by positions validates each against the current length
    assert!(matches!(
        op.remove_songs("mix".to_string(), vec![1, 99]),
        Err(CoreError::IndexOutOfRange)
    ));
    let got = op.locate("mix".to_string()).unwrap();
    assert_eq!(got.songs, vec!["/m/a.mp3", "/m/b.mp3"]);
    op.remove_songs("mix".to_string(), vec![1]).unwrap();
    let got = op.locate("mix".to_string()).unwrap();
    assert_eq!(got.songs, vec!["/m/a.mp3"]);

    op.clear_songs("mix".to_string()).unwrap();
    let got = op.locate("mix".to_string()).unwrap();
    assert!(got.songs.is_empty());
}

#[test]
fn playlist_scrub_removes_paths_everywhere() {
    let mut op = PlaylistOp::new(StoreManager::new());
    op.create("p1".to_string()).unwrap();
    op.create("p2".to_string()).unwrap();
    let batch1 = vec![song("/m/a.mp3", None, None), song("/m/b.mp3", None, None)];
    let batch2 = vec![song("/m/b.mp3", None, None), song("/m/c.mp3", None, None)];
    op.add_songs("p1".to_string(), batch1).unwrap();
    op.add_songs("p2".to_string(), batch2).unwrap();
    op.remove_song_path_all(vec!["/m/b.mp3".to_string()]).unwrap();
    assert_eq!(op.locate("p1".to_string()).unwrap().songs, vec!["/m/a.mp3"]);
    assert_eq!(op.locate("p2".to_string()).unwrap().songs, vec!["/m/c.mp3"]);
}

#[test]
fn playlist_remove_batch_is_atomic() {
    let mut op = PlaylistOp::new(StoreManager::new());
    op.create("one".to_string()).unwrap();
    op.create("two".to_string()).unwrap();
    let bad = vec!["one".to_string(), "missing".to_string()];
    assert!(matches!(op.remove_batch(bad), Err(CoreError::NotFound)));
    assert_eq!(op.list_all().unwrap().len(), 2);
    op.remove_batch(vec!["one".to_string(), "two".to_string()]).unwrap();
    assert_eq!(op.list_all().unwrap().len(), 0);
}

#[test]
fn playlist_insert_and_modify() {
    let mut op = PlaylistOp::new(StoreManager::new());
    let pl = Playlist::new(
        "mine".to_string(),
        "1700000000".to_string(),
        vec!["/m/a.mp3".to_string()],
    );
    op.insert(&pl).unwrap();
    assert!(matches!(op.insert(&pl), Err(CoreError::AlreadyExists)));
    let replacement = Playlist::new(
        "mine".to_string(),
        "1700000000".to_string(),
        vec!["/m/z.mp3".to_string()],
    );
    op.modify(&replacement).unwrap();
    assert_eq!(op.locate("mine".to_string()).unwrap().songs, vec!["/m/z.mp3"]);
}

#[test]
fn playlist_batch_index_removal_runs_descending() {
    let mut op = PlaylistOp::new(StoreManager::new());
    op.create("mix".to_string()).unwrap();
    let songs = vec![
        song("/m/a.mp3", None, None),
        song("/m/b.mp3", None, None),
        song("/m/c.mp3", None, None),
        song("/m/d.mp3", None, None),
    ];
    op.add_songs("mix".to_string(), songs).unwrap();
    // positions name songs of the sequence as it was before the batch
    op.remove_songs("mix".to_string(), vec![0, 2]).unwrap();
    let got = op.locate("mix".to_string()).unwrap();
    assert_eq!(got.songs, vec!["/m/b.mp3", "/m/d.mp3"]);
}

#[test]
fn loaded_documents_normalize_to_unique_keys() {
    let mut doubled = Vec::new();
    doubled.push(song("/m/a.mp3", Some("first"), None));
    doubled.push(song("/m/b.mp3", None, None));
    doubled.push(song("/m/a.mp3", Some("second"), None));
    let doc = normalize_song_doc(DocState::Present(doubled));
    match doc {
        DocState::Present(v) => {
            assert_eq!(v.len(), 2);
            assert_eq!(v[0].path, "/m/a.mp3");
            // the first record under a duplicated path wins
            assert_eq!(v[0].artist.as_deref(), Some("first"));
            assert_eq!(v[1].path, "/m/b.mp3");
        },
        _ => panic!("normalizing a present document keeps it present"),
    }
    assert!(matches!(
        normalize_song_doc(DocState::Corrupt),
        DocState::<Vec<Song>>::Corrupt
    ));

    let mut lists = Vec::new();
    lists.push(Playlist::new("one".to_string(), "t1".to_string(), vec!["/m/a.mp3".to_string()]));
    lists.push(Playlist::new("one".to_string(), "t2".to_string(), Vec::new()));
    match normalize_playlist_doc(DocState::Present(lists)) {
        DocState::Present(v) => {
            assert_eq!(v.len(), 1);
            assert_eq!(v[0].songs, vec!["/m/a.mp3"]);
        },
        _ => panic!("normalizing a present document keeps it present"),
    }

    let mut alists = Vec::new();
    alists.push(Alist::new("picks".to_string(), "t1".to_string(), Vec::new()));
    alists.push(Alist::new("picks".to_string(), "t2".to_string(), Vec::new()));
    match normalize_alist_doc(DocState::Present(alists)) {
        DocState::Present(v) => {
            assert_eq!(v.len(), 1);
            assert_eq!(v[0].created_at, "t1");
        },
        _ => panic!("normalizing a present document keeps it present"),
    }
}
