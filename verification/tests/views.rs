//! The derived views: grouping by artist and by release, sentinel groups,
//! ordering, and the merge of existing groups with fresh songs.

use soa_catalog::entity::release::Release;
use soa_catalog::entity::song::Song;
use soa_catalog::op::artist::ArtistOp;
use soa_catalog::op::release::ReleaseOp;
use soa_catalog::sm::StoreManager;

fn song(path: &str, artist: Option<&str>, release: Option<&str>) -> Song {
    Song::new(
        path.to_string(),
        None,
        Some(60),
        None,
        "c".to_string(),
        "u".to_string(),
        artist.map(|a| a.to_string()),
        release.map(|r| r.to_string()),
    )
}

#[test]
fn artists_group_and_sort_by_name() {
    let op = ArtistOp::new(StoreManager::new());
    let songs = vec![
        song("/m/1.mp3", Some("Zeta"), None),
        song("/m/2.mp3", Some("Alpha"), None),
        song("/m/3.mp3", Some("Zeta"), None),
        song("/m/4.mp3", None, None),
    ];
    let groups = op.from_songs(&songs);
    assert_eq!(groups.len(), 3);
    assert_eq!(groups[0].name, "Alpha");
    assert_eq!(groups[0].songs, vec!["/m/2.mp3"]);
    assert_eq!(groups[1].name, "Unknown Artist");
    assert_eq!(groups[1].songs, vec!["/m/4.mp3"]);
    assert_eq!(groups[2].name, "Zeta");
    assert_eq!(groups[2].songs, vec!["/m/1.mp3", "/m/3.mp3"]);
}

#[test]
fn recomputing_artists_reproduces_the_view() {
    let op = ArtistOp::new(StoreManager::new());
    let songs = vec![
        song("/m/1.mp3", Some("B"), None),
        song("/m/2.mp3", Some("A"), None),
        song("/m/3.mp3", None, None),
    ];
    let once = op.from_songs(&songs);
    let twice = op.from_songs(&songs);
    assert_eq!(once.len(), twice.len());
    for (a, b) in once.iter().zip(twice.iter()) {
        assert_eq!(a.name, b.name);
        assert_eq!(a.songs, b.songs);
    }
}

#[test]
fn releases_group_by_title_and_artist() {
    let op = ReleaseOp::new(StoreManager::new());
    let songs = vec![
        song("/m/1.mp3", Some("X"), Some("Same")),
        song("/m/2.mp3", Some("Y"), Some("Same")),
        song("/m/3.mp3", Some("X"), Some("Same")),
        song("/m/4.mp3", Some("X"), None),
    ];
    let groups = op.from_songs(&songs);
    assert_eq!(groups.len(), 3);
    // ordered by title, then artist
    assert_eq!(groups[0].title, "Same");
    assert_eq!(groups[0].artist.as_deref(), Some("X"));
    assert_eq!(groups[0].songs, vec!["/m/1.mp3", "/m/3.mp3"]);
    assert_eq!(groups[1].title, "Same");
    assert_eq!(groups[1].artist.as_deref(), Some("Y"));
    assert_eq!(groups[1].songs, vec!["/m/2.mp3"]);
    assert_eq!(groups[2].title, "unknown_release");
    assert_eq!(groups[2].songs, vec!["/m/4.mp3"]);
}

#[test]
fn release_from_song_uses_sentinel_title() {
    let op = ReleaseOp::new(StoreManager::new());
    let with = op.from_song(&song("/m/1.mp3", Some("X"), Some("R")));
    assert_eq!(with.title, "R");
    assert_eq!(with.artist.as_deref(), Some("X"));
    assert_eq!(with.songs, vec!["/m/1.mp3"]);
    let without = op.from_song(&song("/m/2.mp3", None, None));
    assert_eq!(without.title, "unknown_release");
    assert_eq!(without.artist, None);
}

#[test]
fn releases_merge_extends_existing_groups() {
    let op = ReleaseOp::new(StoreManager::new());
    let mut existing = vec![Release::new(
        "R".to_string(),
        Some("X".to_string()),
        vec!["/m/old.mp3".to_string()],
    )];
    let songs = vec![
        song("/m/new.mp3", Some("X"), Some("R")),
        song("/m/other.mp3", Some("X"), Some("Q")),
    ];
    let merged = op.from_songs_merge(&songs, &mut existing);
    assert_eq!(merged.len(), 2);
    assert_eq!(merged[0].title, "Q");
    assert_eq!(merged[1].title, "R");
    assert_eq!(merged[1].songs, vec!["/m/old.mp3", "/m/new.mp3"]);
    // the handed-in groups are left as they were
    assert_eq!(existing.len(), 1);
    assert_eq!(existing[0].songs, vec!["/m/old.mp3"]);
}

#[test]
fn select_by_song_needs_both_tags() {
    let mut op = ReleaseOp::new(StoreManager::new());
    op.add_save(&vec![
        song("/m/1.mp3", Some("X"), Some("R")),
        song("/m/2.mp3", Some("X"), Some("R")),
        song("/m/3.mp3", Some("Y"), Some("R")),
    ])
    .unwrap();
    let peers = op.select_by_song(&song("/m/1.mp3", Some("X"), Some("R"))).unwrap();
    assert_eq!(peers.len(), 2);
    let none = op.select_by_song(&song("/m/4.mp3", None, Some("R"))).unwrap();
    assert_eq!(none.len(), 0);
    op.remove_by_artist_release("X", "R").unwrap();
    let left = op.list_all().unwrap();
    assert_eq!(left.len(), 1);
    assert_eq!(left[0].artist.as_deref(), Some("Y"));
}
