//! The orchestrator end to end: a watched directory is loaded, the views
//! are published, and a watcher-driven removal keeps everything consistent.

use soa_catalog::controller::song::LoadPlan;
use soa_catalog::entity::alist::Aelement;
use soa_catalog::entity::list::Playlist;
use soa_catalog::dir::FileSig;
use soa_catalog::entity::song::Song;
use soa_catalog::entity::song::TagData;
use soa_catalog::filesystem::FileSystem;
use soa_catalog::library::Library;
use soa_catalog::sm::StoreManager;

fn sig(path: &str, modified: &str) -> FileSig {
    FileSig { path: path.to_string(), modified: modified.to_string() }
}

fn exts() -> Vec<String> {
    vec!["mp3".to_string()]
}

fn parse_tagged(path: &str, title: &str, artist: &str, modified: &str) -> Song {
    Song::from_tag(
        path.to_string(),
        TagData {
            title: Some(title.to_string()),
            artist: Some(artist.to_string()),
            album: None,
            duration: 120,
            comment_score: None,
        },
        "t0".to_string(),
        modified.to_string(),
        None,
    )
}

fn parse_untagged(path: &str, modified: &str) -> Song {
    Song::from_tag(
        path.to_string(),
        TagData { title: None, artist: None, album: None, duration: 90, comment_score: None },
        "t0".to_string(),
        modified.to_string(),
        None,
    )
}

fn fresh_library() -> Library {
    let mut fs = FileSystem::new();
    fs.add_dir(
        "/music".to_string(),
        vec![sig("/music/a.mp3", "t1"), sig("/music/b.mp3", "t1")],
        &exts(),
    )
    .unwrap();
    Library::init(
        fs,
        StoreManager::new(),
        StoreManager::new(),
        StoreManager::new(),
        StoreManager::new(),
        StoreManager::new(),
        StoreManager::new(),
    )
}

#[test]
fn load_then_remove_keeps_views_fresh() {
    let mut lib = fresh_library();
    assert_eq!(lib.dir_path, vec!["/music"]);

    // everything is new on the first scan
    let files = vec![sig("/music/a.mp3", "t1"), sig("/music/b.mp3", "t1")];
    let plan: LoadPlan = lib.plan_load(&files).unwrap();
    assert!(plan.kept.is_empty());
    assert!(plan.reparse.is_empty());
    assert_eq!(plan.fresh, vec!["/music/a.mp3", "/music/b.mp3"]);

    // the tag reader runs outside; its records complete the load
    let songs = vec![
        parse_tagged("/music/a.mp3", "Song A", "X", "t1"),
        parse_untagged("/music/b.mp3", "t1"),
    ];
    lib.finish_load(&songs).unwrap();

    assert_eq!(lib.song_info.len(), 2);
    assert_eq!(lib.artist_info.len(), 2);
    assert_eq!(lib.artist_info[0].name, "Unknown Artist");
    assert_eq!(lib.artist_info[0].songs, vec!["/music/b.mp3"]);
    assert_eq!(lib.artist_info[1].name, "X");
    assert_eq!(lib.artist_info[1].songs, vec!["/music/a.mp3"]);

    // b.mp3 vanishes from disk; the watcher-driven removal path runs
    lib.on_file_removed(&vec!["/music/b.mp3".to_string()]).unwrap();
    assert_eq!(lib.song_info.len(), 1);
    assert_eq!(lib.song_info[0].path, "/music/a.mp3");
    assert_eq!(lib.artist_info.len(), 1);
    assert_eq!(lib.artist_info[0].name, "X");
}

#[test]
fn second_scan_keeps_unchanged_and_reparses_changed() {
    let mut lib = fresh_library();
    let files = vec![sig("/music/a.mp3", "t1"), sig("/music/b.mp3", "t1")];
    let plan = lib.plan_load(&files).unwrap();
    assert_eq!(plan.fresh.len(), 2);
    let songs = vec![
        parse_tagged("/music/a.mp3", "Song A", "X", "t1"),
        parse_untagged("/music/b.mp3", "t1"),
    ];
    lib.finish_load(&songs).unwrap();

    // a.mp3 was touched on disk; b.mp3 is unchanged
    let rescan = vec![sig("/music/a.mp3", "t2"), sig("/music/b.mp3", "t1")];
    let plan2 = lib.plan_load(&rescan).unwrap();
    assert_eq!(plan2.kept.len(), 1);
    assert_eq!(plan2.kept[0].path, "/music/b.mp3");
    assert_eq!(plan2.reparse.len(), 1);
    assert_eq!(plan2.reparse[0].path, "/music/a.mp3");
    assert!(plan2.fresh.is_empty());
}

#[test]
fn modification_keeps_the_stored_score() {
    let mut lib = fresh_library();
    let files = vec![sig("/music/a.mp3", "t1")];
    let _ = lib.plan_load(&files).unwrap();
    let mut first = parse_tagged("/music/a.mp3", "Song A", "X", "t1");
    first.score = Some(soa_catalog::entity::song::Score::BigCup);
    lib.finish_load(&vec![first]).unwrap();

    // the re-parse comes back without a score; the stored one survives
    let reparsed = parse_tagged("/music/a.mp3", "Song A (remaster)", "X", "t2");
    lib.on_file_modified(&vec![reparsed]).unwrap();
    assert_eq!(lib.song_info.len(), 1);
    assert_eq!(lib.song_info[0].title.as_deref(), Some("Song A (remaster)"));
    assert!(matches!(
        lib.song_info[0].score,
        Some(soa_catalog::entity::song::Score::BigCup)
    ));
}

#[test]
fn added_files_join_the_published_views() {
    let mut lib = fresh_library();
    lib.finish_load(&vec![parse_tagged("/music/a.mp3", "Song A", "X", "t1")]).unwrap();
    lib.on_file_added(&vec![parse_tagged("/music/c.mp3", "Song C", "Y", "t1")]).unwrap();
    assert_eq!(lib.song_info.len(), 2);
    assert_eq!(lib.artist_info.len(), 2);
    assert_eq!(lib.artist_info[0].name, "X");
    assert_eq!(lib.artist_info[1].name, "Y");
    // untagged releases group by artist under the sentinel title
    assert_eq!(lib.release_info.len(), 2);
    assert_eq!(lib.release_info[0].title, "unknown_release");
    assert_eq!(lib.release_info[0].artist.as_deref(), Some("X"));
    assert_eq!(lib.release_info[1].artist.as_deref(), Some("Y"));
}

#[test]
fn import_target_is_under_the_library_root() {
    let lib = fresh_library();
    let target = lib.single_song_target(&"new.mp3".to_string()).unwrap();
    assert_eq!(target, "/music/new.mp3");

    // with no watched root there is nowhere to import into
    let bare = Library::init(
        FileSystem::new(),
        StoreManager::new(),
        StoreManager::new(),
        StoreManager::new(),
        StoreManager::new(),
        StoreManager::new(),
        StoreManager::new(),
    );
    assert!(matches!(
        bare.single_song_target(&"new.mp3".to_string()),
        Err(soa_catalog::error::CoreError::FsOperationFailed)
    ));
}

#[test]
fn modifying_an_unknown_path_changes_nothing() {
    let mut lib = fresh_library();
    lib.finish_load(&vec![parse_tagged("/music/a.mp3", "Song A", "X", "t1")]).unwrap();
    let stranger = parse_untagged("/music/stranger.mp3", "t1");
    assert!(matches!(
        lib.on_file_modified(&vec![stranger]),
        Err(soa_catalog::error::CoreError::NotFound)
    ));
    assert_eq!(lib.song_info.len(), 1);
    assert_eq!(lib.artist_info.len(), 1);
}

#[test]
fn freezing_turns_a_curated_list_into_a_playlist() {
    let mut lib = fresh_library();
    lib.alist_controller.op.create("tour".to_string()).unwrap();
    lib.alist_controller
        .op
        .add_element(
            "tour".to_string(),
            Aelement::Song(Song::sample("/music/a.mp3".to_string())),
        )
        .unwrap();
    lib.alist_controller
        .op
        .add_element(
            "tour".to_string(),
            Aelement::Playlist(Playlist::new(
                "warmup".to_string(),
                "1700000000".to_string(),
                vec!["/music/b.mp3".to_string(), "/music/c.mp3".to_string()],
            )),
        )
        .unwrap();

    lib.freeze_alist("tour".to_string()).unwrap();
    assert!(lib.alist.is_empty());
    assert_eq!(lib.playlist.len(), 1);
    assert_eq!(lib.playlist[0].name, "tour");
    assert_eq!(
        lib.playlist[0].songs,
        vec!["/music/a.mp3", "/music/b.mp3", "/music/c.mp3"]
    );
    assert!(matches!(
        lib.freeze_alist("tour".to_string()),
        Err(soa_catalog::error::CoreError::NotFound)
    ));
}

#[test]
fn tag_rewrite_marks_the_path_ignored() {
    let mut lib = fresh_library();
    let song = parse_tagged("/music/a.mp3", "Song A", "X", "t1");
    lib.finish_load(&vec![song.clone()]).unwrap();
    lib.update_song_tags(&song, "t0".to_string(), "t5".to_string()).unwrap();
    assert_eq!(lib.song_info[0].updated_at, "t5");

    // the watcher swallows the echo of the rewrite
    let ev = lib
        .fs
        .apply_scan(
            &"/music".to_string(),
            vec![sig("/music/a.mp3", "t5"), sig("/music/b.mp3", "t1")],
            &exts(),
        )
        .unwrap();
    assert!(ev.modified.is_empty());
}

#[test]
fn published_song_list_is_title_sorted() {
    let mut lib = fresh_library();
    let songs = vec![
        parse_tagged("/music/z.mp3", "Alpha", "X", "t1"),
        parse_untagged("/music/m.mp3", "t1"),
        parse_tagged("/music/a.mp3", "Zulu", "X", "t1"),
    ];
    lib.finish_load(&songs).unwrap();
    // an absent title comes first, then titles in order, whatever the paths
    assert_eq!(lib.song_info.len(), 3);
    assert_eq!(lib.song_info[0].path, "/music/m.mp3");
    assert_eq!(lib.song_info[1].title.as_deref(), Some("Alpha"));
    assert_eq!(lib.song_info[2].title.as_deref(), Some("Zulu"));

    // a mutation republishes in the same order
    lib.on_file_added(&vec![parse_tagged("/music/b.mp3", "Mike", "X", "t1")]).unwrap();
    assert_eq!(lib.song_info[2].title.as_deref(), Some("Mike"));
    assert_eq!(lib.song_info[3].title.as_deref(), Some("Zulu"));
}
