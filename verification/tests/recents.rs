//! The recent list: front insertion, index removal and path scrubbing.

use soa_catalog::entity::recent::Recent;
use soa_catalog::error::CoreError;
use soa_catalog::op::recent::RecentOp;
use soa_catalog::sm::StoreManager;

fn entry(path: &str, at: &str) -> Recent {
    Recent::new(path.to_string(), Some(at.to_string()))
}

#[test]
fn newest_entry_goes_to_the_front() {
    let mut op = RecentOp::new(StoreManager::new());
    op.insert(&entry("/m/a.mp3", "t1")).unwrap();
    op.insert(&entry("/m/b.mp3", "t2")).unwrap();
    let all = op.list_all().unwrap();
    assert_eq!(all.len(), 2);
    assert_eq!(all[0].song, "/m/b.mp3");
    assert_eq!(all[1].song, "/m/a.mp3");
}

#[test]
fn recent_index_removal_validates() {
    let mut op = RecentOp::new(StoreManager::new());
    op.insert(&entry("/m/a.mp3", "t1")).unwrap();
    assert!(matches!(
        op.remove_by_index(1),
        Err(CoreError::IndexOutOfRange)
    ));
    assert_eq!(op.list_all().unwrap().len(), 1);
    op.remove_by_index(0).unwrap();
    assert_eq!(op.list_all().unwrap().len(), 0);
}

#[test]
fn recent_batch_index_removal_runs_descending() {
    let mut op = RecentOp::new(StoreManager::new());
    for p in ["/m/d.mp3", "/m/c.mp3", "/m/b.mp3", "/m/a.mp3"] {
        op.insert(&entry(p, "t")).unwrap();
    }
    // the list is a,b,c,d after front insertions
    op.remove_by_indexs(vec![1, 3]).unwrap();
    let all = op.list_all().unwrap();
    assert_eq!(all.len(), 2);
    assert_eq!(all[0].song, "/m/a.mp3");
    assert_eq!(all[1].song, "/m/c.mp3");
    assert!(matches!(
        op.remove_by_indexs(vec![0, 9]),
        Err(CoreError::IndexOutOfRange)
    ));
    assert_eq!(op.list_all().unwrap().len(), 2);
}

#[test]
fn recent_scrub_by_paths() {
    let mut op = RecentOp::new(StoreManager::new());
    op.insert(&entry("/m/a.mp3", "t1")).unwrap();
    op.insert(&entry("/m/b.mp3", "t2")).unwrap();
    op.insert(&entry("/m/a.mp3", "t3")).unwrap();
    op.remove_by_song_paths(vec!["/m/a.mp3".to_string()]).unwrap();
    let all = op.list_all().unwrap();
    assert_eq!(all.len(), 1);
    assert_eq!(all[0].song, "/m/b.mp3");
    op.clear();
    assert_eq!(op.list_all().unwrap().len(), 0);
}
