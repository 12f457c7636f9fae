//! String and path logic: sanitising, ordering, extensions, joining,
//! ancestry and the cache-name hash.

use soa_catalog::paths::extension_of;
use soa_catalog::paths::get_path_hash;
use soa_catalog::paths::is_audio_path;
use soa_catalog::paths::join_path;
use soa_catalog::paths::path_is_under;
use soa_catalog::paths::replace_extension;
use soa_catalog::text::sanitize;
use soa_catalog::text::str_eq;
use soa_catalog::text::str_eq_ignore_case;
use soa_catalog::text::str_lt;

#[test]
fn sanitize_trims_and_strips_nul() {
    assert_eq!(sanitize(&"  hello world \n".to_string()), "hello world");
    assert_eq!(sanitize(&"a\u{0}b".to_string()), "ab");
    assert_eq!(sanitize(&" \t \r\n".to_string()), "");
    // trimming covers all Unicode whitespace, as str::trim does
    assert_eq!(sanitize(&"\u{a0}\u{3000}padded\u{2009}".to_string()), "padded");
    assert_eq!(
        sanitize(&"  wide \u{2003} space  ".to_string()),
        "wide \u{2003} space"
    );
    assert_eq!(sanitize(&String::new()), "");
    assert_eq!(sanitize(&"plain".to_string()), "plain");
}

#[test]
fn string_order_is_lexicographic() {
    assert!(str_lt("abc", "abd"));
    assert!(str_lt("ab", "abc"));
    assert!(!str_lt("abc", "abc"));
    assert!(!str_lt("b", "ab"));
    assert!(str_lt("", "a"));
}

#[test]
fn string_equality_by_characters() {
    assert!(str_eq("same", "same"));
    assert!(!str_eq("same", "sane"));
    assert!(str_eq_ignore_case("MP3", "mp3"));
    assert!(str_eq_ignore_case("FlAc", "fLaC"));
    assert!(!str_eq_ignore_case("mp3", "mp4"));
}

#[test]
fn extension_of_final_component() {
    assert_eq!(extension_of("/music/a.mp3"), Some("mp3".to_string()));
    assert_eq!(extension_of("a.tar.gz"), Some("gz".to_string()));
    assert_eq!(extension_of("/music/noext"), None);
    assert_eq!(extension_of("/music/.hidden"), None);
    assert_eq!(extension_of("/mu.sic/noext"), None);
    assert_eq!(extension_of("trailing."), Some("".to_string()));
}

#[test]
fn audio_allow_list_ignores_case() {
    let exts = vec!["mp3".to_string(), "flac".to_string(), "wav".to_string()];
    assert!(is_audio_path("/m/a.mp3", &exts));
    assert!(is_audio_path("/m/a.MP3", &exts));
    assert!(is_audio_path("/m/b.FLaC", &exts));
    assert!(!is_audio_path("/m/c.ogg", &exts));
    assert!(!is_audio_path("/m/noext", &exts));
}

#[test]
fn join_inserts_one_separator() {
    assert_eq!(join_path("/base", "rel"), "/base/rel");
    assert_eq!(join_path("/base/", "rel"), "/base/rel");
    assert_eq!(join_path("", "rel"), "rel");
}

#[test]
fn replace_extension_keeps_stem() {
    assert_eq!(replace_extension("/m/a.mp3", "lrc"), "/m/a.lrc");
    assert_eq!(replace_extension("/m/noext", "lrc"), "/m/noext.lrc");
    assert_eq!(replace_extension("a.tar.gz", "lrc"), "a.tar.lrc");
}

#[test]
fn path_hash_is_fnv1a_hex() {
    assert_eq!(get_path_hash(&"abc".to_string()), "e71fa2190541574b");
    assert_eq!(get_path_hash(&"/music/a.mp3".to_string()), "7e6a8c8c684fbbb5");
    assert_eq!(
        get_path_hash(&"/music/a.mp3".to_string()),
        get_path_hash(&"/music/a.mp3".to_string())
    );
    assert_ne!(
        get_path_hash(&"/music/a.mp3".to_string()),
        get_path_hash(&"/music/b.mp3".to_string())
    );
}

#[test]
fn ancestry_is_component_wise() {
    assert!(path_is_under("/music/a.mp3", "/music"));
    assert!(path_is_under("/music", "/music"));
    assert!(path_is_under("/music/sub/a.mp3", "/music"));
    assert!(!path_is_under("/musical/a.mp3", "/music"));
    assert!(!path_is_under("/other/a.mp3", "/music"));
}
