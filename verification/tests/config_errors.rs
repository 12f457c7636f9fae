//! Configuration defaults, error descriptions and cache naming rules.

use soa_catalog::controller::lyric::LyricController;
use soa_catalog::controller::pic::PicController;
use soa_catalog::error::CoreError;
use soa_catalog::misc::Config;
use soa_catalog::misc::path;
use soa_catalog::op::lyric::get_lyric_dir_path;
use soa_catalog::op::pic::get_art_dir_path;
use soa_catalog::op::pic::ArtAction;

#[test]
fn config_default_values() {
    let c = Config::default();
    assert_eq!(c.log_prefix, "soa");
    assert_eq!(c.song_store, "songs.json");
    assert_eq!(c.playlist_store, "playlists.json");
    assert_eq!(c.alist_store, "alist.json");
    assert_eq!(c.recent_store, "recents.json");
    assert_eq!(c.release_cover_store, "releases_cover");
    assert_eq!(c.lyric_store, "lyrics");
    assert_eq!(c.single_song_store, "lib");
    assert_eq!(c.debounce_timeout_ms, 2000);
    assert_eq!(c.supported_audio_extensions, vec!["mp3", "flac", "wav"]);
    assert!(c.listen_paths.is_empty());
    assert_eq!(path(), "config.json");
}

#[test]
fn error_messages_name_the_failure() {
    assert_eq!(CoreError::NotFound.message(), "key not found");
    assert_eq!(CoreError::AlreadyExists.message(), "key already exists");
    assert_eq!(CoreError::IndexOutOfRange.message(), "index out of range");
    assert_eq!(CoreError::StorageCorrupt.message(), "stored document is corrupt");
    assert_eq!(CoreError::AlreadyWatched.message(), "path is already watched");
    assert_eq!(CoreError::NotWatched.message(), "path is not watched");
}

#[test]
fn cache_artifacts_are_named_by_path_hash() {
    let lyric = LyricController::new();
    let p = lyric.cache_path("/base/lyrics", &"abc".to_string());
    assert_eq!(p, "/base/lyrics/e71fa2190541574b.lrc");
    assert_eq!(lyric.source_path(&"/m/a.mp3".to_string()), "/m/a.lrc");

    let pic = PicController::new();
    let art = pic.cache_file("/base/covers", &"abc".to_string(), "png");
    assert_eq!(art, "/base/covers/e71fa2190541574b.png");
    assert_eq!(pic.extension_for_mime("image/jpeg"), "jpg");
    assert_eq!(pic.extension_for_mime("image/png"), "png");
    assert_eq!(pic.extension_for_mime("application/octet-stream"), "img");
}

#[test]
fn cache_dirs_resolve_under_the_store_base() {
    let mut c = Config::default();
    c.store_base = "/base".to_string();
    assert_eq!(get_art_dir_path(&c), "/base/releases_cover");
    assert_eq!(get_lyric_dir_path(&c), "/base/lyrics");
}

#[test]
fn art_cache_decisions() {
    let pic = PicController::new();
    assert!(matches!(
        pic.cache_action(Some("png".to_string()), None),
        ArtAction::Found { has_art: true }
    ));
    assert!(matches!(
        pic.cache_action(Some("img".to_string()), None),
        ArtAction::Found { has_art: false }
    ));
    match pic.cache_action(None, Some(Some("image/jpeg".to_string()))) {
        ArtAction::WritePicture { ext } => assert_eq!(ext, "jpg"),
        _ => panic!("an embedded picture is written out"),
    }
    match pic.cache_action(None, Some(None)) {
        ArtAction::WritePicture { ext } => assert_eq!(ext, "img"),
        _ => panic!("a picture without a MIME type still writes"),
    }
    assert!(matches!(
        pic.cache_action(None, None),
        ArtAction::WritePlaceholder
    ));
}
