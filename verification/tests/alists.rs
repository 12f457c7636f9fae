//! Curated lists: element edits and the freeze operation.

use soa_catalog::entity::alist::Aelement;
use soa_catalog::entity::list::Playlist;
use soa_catalog::entity::song::Song;
use soa_catalog::error::CoreError;
use soa_catalog::op::alist::AlistOp;
use soa_catalog::sm::StoreManager;

fn song(path: &str) -> Song {
    Song::sample(path.to_string())
}

#[test]
fn alist_create_rejects_taken_name() {
    let mut op = AlistOp::new(StoreManager::new());
    op.create("picks".to_string()).unwrap();
    assert!(matches!(
        op.create("picks".to_string()),
        Err(CoreError::AlreadyExists)
    ));
    assert_eq!(op.list_all().unwrap().len(), 1);
}

#[test]
fn alist_element_edits() {
    let mut op = AlistOp::new(StoreManager::new());
    op.create("picks".to_string()).unwrap();
    op.add_element("picks".to_string(), Aelement::Song(song("/m/a.mp3"))).unwrap();
    op.add_element("picks".to_string(), Aelement::Song(song("/m/b.mp3"))).unwrap();
    op.add_element("picks".to_string(), Aelement::Song(song("/m/a.mp3"))).unwrap();
    assert_eq!(op.list_all_elements("picks".to_string()).unwrap().len(), 3);

    // removal by entity identity takes every copy
    op.remove_element_all("picks".to_string(), Aelement::Song(song("/m/a.mp3"))).unwrap();
    let left = op.list_all_elements("picks".to_string()).unwrap();
    assert_eq!(left.len(), 1);
    assert!(matches!(&left[0], Aelement::Song(s) if s.path == "/m/b.mp3"));

    assert!(matches!(
        op.remove_element("picks".to_string(), 5),
        Err(CoreError::IndexOutOfRange)
    ));
    op.remove_element("picks".to_string(), 0).unwrap();
    assert_eq!(op.list_all_elements("picks".to_string()).unwrap().len(), 0);
}

#[test]
fn alist_batch_index_removal_runs_descending() {
    let mut op = AlistOp::new(StoreManager::new());
    op.create("picks".to_string()).unwrap();
    for p in ["/m/a.mp3", "/m/b.mp3", "/m/c.mp3", "/m/d.mp3"] {
        op.add_element("picks".to_string(), Aelement::Song(song(p))).unwrap();
    }
    // positions name elements of the list as it was before the batch
    op.remove_elements("picks".to_string(), vec![0, 2]).unwrap();
    let left = op.list_all_elements("picks".to_string()).unwrap();
    assert_eq!(left.len(), 2);
    assert!(matches!(&left[0], Aelement::Song(s) if s.path == "/m/b.mp3"));
    assert!(matches!(&left[1], Aelement::Song(s) if s.path == "/m/d.mp3"));

    assert!(matches!(
        op.remove_elements("picks".to_string(), vec![0, 7]),
        Err(CoreError::IndexOutOfRange)
    ));
    assert_eq!(op.list_all_elements("picks".to_string()).unwrap().len(), 2);
}

#[test]
fn freeze_flattens_in_encounter_order_and_removes_the_list() {
    let mut op = AlistOp::new(StoreManager::new());
    op.create("tour".to_string()).unwrap();
    op.add_element("tour".to_string(), Aelement::Song(song("/m/a.mp3"))).unwrap();
    let inner = Playlist::new(
        "warmup".to_string(),
        "1700000000".to_string(),
        vec!["/m/b.mp3".to_string(), "/m/c.mp3".to_string()],
    );
    op.add_element("tour".to_string(), Aelement::Playlist(inner)).unwrap();

    let frozen = op.freeze("tour".to_string()).unwrap();
    assert_eq!(frozen.name, "tour");
    assert_eq!(frozen.songs, vec!["/m/a.mp3", "/m/b.mp3", "/m/c.mp3"]);
    // the source list no longer exists
    assert!(matches!(
        op.locate("tour".to_string()),
        Err(CoreError::NotFound)
    ));
    assert!(matches!(
        op.freeze("tour".to_string()),
        Err(CoreError::NotFound)
    ));
}

#[test]
fn alist_songs_flatten_groups_too() {
    let mut op = AlistOp::new(StoreManager::new());
    op.create("mixed".to_string()).unwrap();
    op.add_element("mixed".to_string(), Aelement::Song(song("/m/a.mp3"))).unwrap();
    op.add_element(
        "mixed".to_string(),
        Aelement::Artist(soa_catalog::entity::artist::Artist::new(
            "X".to_string(),
            vec!["/m/x1.mp3".to_string(), "/m/x2.mp3".to_string()],
        )),
    )
    .unwrap();
    op.add_element(
        "mixed".to_string(),
        Aelement::Release(soa_catalog::entity::release::Release::new(
            "R".to_string(),
            Some("X".to_string()),
            vec!["/m/r1.mp3".to_string()],
        )),
    )
    .unwrap();
    let songs = op.list_all_songs("mixed".to_string()).unwrap();
    assert_eq!(songs, vec!["/m/a.mp3", "/m/x1.mp3", "/m/x2.mp3", "/m/r1.mp3"]);
}

#[test]
fn alist_rename_rejects_any_taken_name() {
    let mut op = AlistOp::new(StoreManager::new());
    op.create("one".to_string()).unwrap();
    op.create("two".to_string()).unwrap();
    assert!(matches!(
        op.rename("one".to_string(), "two".to_string()),
        Err(CoreError::AlreadyExists)
    ));
    assert!(matches!(
        op.rename("missing".to_string(), "three".to_string()),
        Err(CoreError::NotFound)
    ));
    op.rename("one".to_string(), "three".to_string()).unwrap();
    assert!(op.locate("three".to_string()).is_ok());
}
