//! The scanner diff, the watch registry and the event router with
//! self-write suppression.

use soa_catalog::dir::Dir;
use soa_catalog::dir::FileSig;
use soa_catalog::error::CoreError;
use soa_catalog::filesystem::FileSystem;
use soa_catalog::watch::DirectoryWatcher;

fn sig(path: &str, modified: &str) -> FileSig {
    FileSig { path: path.to_string(), modified: modified.to_string() }
}

fn exts() -> Vec<String> {
    vec!["mp3".to_string(), "flac".to_string()]
}

#[test]
fn scan_filters_and_dedups() {
    let dir = Dir::init(
        "/music".to_string(),
        vec![
            sig("/music/a.mp3", "t1"),
            sig("/music/skip.txt", "t1"),
            sig("/music/a.mp3", "t9"),
            sig("/music/b.FLAC", "t2"),
        ],
        &exts(),
    );
    let files = dir.glob();
    assert_eq!(files, vec!["/music/a.mp3", "/music/b.FLAC"]);
}

#[test]
fn diff_partitions_changes() {
    let mut dir = Dir::init(
        "/music".to_string(),
        vec![
            sig("/music/gone.mp3", "t1"),
            sig("/music/same.mp3", "t1"),
            sig("/music/touched.mp3", "t1"),
        ],
        &exts(),
    );
    let (removed, added, modified) = dir.update(
        vec![
            sig("/music/same.mp3", "t1"),
            sig("/music/touched.mp3", "t2"),
            sig("/music/new.mp3", "t1"),
        ],
        &exts(),
    );
    assert_eq!(removed, vec!["/music/gone.mp3"]);
    assert_eq!(added, vec!["/music/new.mp3"]);
    assert_eq!(modified, vec!["/music/touched.mp3"]);
    // the three sets are disjoint and no path appears twice
    for p in &removed {
        assert!(!added.contains(p) && !modified.contains(p));
    }
    for p in &added {
        assert!(!modified.contains(p));
    }
}

#[test]
fn watch_registry_rejects_misuse() {
    let mut w = DirectoryWatcher::new();
    w.watch("/music".to_string()).unwrap();
    assert!(matches!(
        w.watch("/music".to_string()),
        Err(CoreError::AlreadyWatched)
    ));
    assert!(matches!(
        w.unwatch(&"/other".to_string()),
        Err(CoreError::NotWatched)
    ));
    w.unwatch(&"/music".to_string()).unwrap();
    assert_eq!(w.glob().len(), 0);
}

#[test]
fn events_route_to_ancestor_roots() {
    let mut fs = FileSystem::new();
    fs.add_dir("/music".to_string(), vec![], &exts()).unwrap();
    fs.add_dir("/podcasts".to_string(), vec![], &exts()).unwrap();
    let touched = fs.affected_roots(&vec!["/music/sub/a.mp3".to_string()]);
    assert_eq!(touched, vec!["/music"]);
    let both = fs.affected_roots(&vec![
        "/music/a.mp3".to_string(),
        "/podcasts/p.mp3".to_string(),
    ]);
    assert_eq!(both, vec!["/music", "/podcasts"]);
    let none = fs.affected_roots(&vec!["/elsewhere/x.mp3".to_string()]);
    assert!(none.is_empty());
}

#[test]
fn self_write_suppression_consumes_one_event() {
    let mut fs = FileSystem::new();
    fs.add_dir(
        "/music".to_string(),
        vec![sig("/music/a.mp3", "t1"), sig("/music/b.mp3", "t1")],
        &exts(),
    )
    .unwrap();

    // the system is about to rewrite a.mp3 itself
    fs.ignore_next_modify(&"/music/a.mp3".to_string());

    // the write comes back as a modification event: it is swallowed
    let ev = fs
        .apply_scan(
            &"/music".to_string(),
            vec![sig("/music/a.mp3", "t2"), sig("/music/b.mp3", "t1")],
            &exts(),
        )
        .unwrap();
    assert!(ev.removed.is_empty());
    assert!(ev.added.is_empty());
    assert!(ev.modified.is_empty());

    // an unrelated later modification of the same path is forwarded
    let ev2 = fs
        .apply_scan(
            &"/music".to_string(),
            vec![sig("/music/a.mp3", "t3"), sig("/music/b.mp3", "t1")],
            &exts(),
        )
        .unwrap();
    assert_eq!(ev2.modified, vec!["/music/a.mp3"]);

    assert!(matches!(
        fs.apply_scan(&"/elsewhere".to_string(), vec![], &exts()),
        Err(CoreError::NotWatched)
    ));
}

#[test]
fn suppression_leaves_other_paths_alone() {
    let mut fs = FileSystem::new();
    fs.add_dir(
        "/music".to_string(),
        vec![sig("/music/a.mp3", "t1"), sig("/music/b.mp3", "t1")],
        &exts(),
    )
    .unwrap();
    fs.ignore_next_modify(&"/music/a.mp3".to_string());
    // both files change: only the pending one is swallowed
    let ev = fs
        .apply_scan(
            &"/music".to_string(),
            vec![sig("/music/a.mp3", "t2"), sig("/music/b.mp3", "t2")],
            &exts(),
        )
        .unwrap();
    assert_eq!(ev.modified, vec!["/music/b.mp3"]);
}

#[test]
fn remove_dir_forgets_the_snapshot() {
    let mut fs = FileSystem::new();
    fs.add_dir("/music".to_string(), vec![sig("/music/a.mp3", "t1")], &exts()).unwrap();
    assert!(matches!(
        fs.add_dir("/music".to_string(), vec![], &exts()),
        Err(CoreError::AlreadyWatched)
    ));
    fs.remove_dir(&"/music".to_string()).unwrap();
    assert!(matches!(
        fs.remove_dir(&"/music".to_string()),
        Err(CoreError::NotWatched)
    ));
    assert!(fs.glob_dirs().is_empty());
}
