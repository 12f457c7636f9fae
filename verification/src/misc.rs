//! Process configuration: the explicit configuration object built once at
//! startup and handed into each component.

use vstd::prelude::*;

verus! {

/// Every setting the catalog reads, as plain values.
#[derive(Debug)]
pub struct Config {
    pub log_prefix: String,
    pub log_level: String,
    pub store_base: String,
    pub song_store: String,
    pub playlist_store: String,
    pub alist_store: String,
    pub recent_store: String,
    pub release_cover_store: String,
    pub lyric_store: String,
    pub single_song_store: String,
    pub listen_paths: Vec<String>,
    pub debounce_timeout_ms: u64,
    pub supported_audio_extensions: Vec<String>,
}

impl Default for Config {
    /// The configuration a first run starts from.
    fn default() -> (r: Self)
        ensures
            r.log_prefix@ == "soa"@,
            r.log_level@ == "info"@,
            r.store_base@.len() == 0,
            r.song_store@ == "songs.json"@,
            r.playlist_store@ == "playlists.json"@,
            r.alist_store@ == "alist.json"@,
            r.recent_store@ == "recents.json"@,
            r.release_cover_store@ == "releases_cover"@,
            r.lyric_store@ == "lyrics"@,
            r.single_song_store@ == "lib"@,
            r.listen_paths@.len() == 0,
            r.debounce_timeout_ms == 2000,
            r.supported_audio_extensions@.map_values(|s: String| s@) =~= seq![
                "mp3"@,
                "flac"@,
                "wav"@,
            ],
    {
        let mut supported_audio_extensions: Vec<String> = Vec::new();
        supported_audio_extensions.push("mp3".to_owned());
        supported_audio_extensions.push("flac".to_owned());
        supported_audio_extensions.push("wav".to_owned());
        Config {
            log_prefix: "soa".to_owned(),
            log_level: "info".to_owned(),
            store_base: String::new(),
            song_store: "songs.json".to_owned(),
            playlist_store: "playlists.json".to_owned(),
            alist_store: "alist.json".to_owned(),
            recent_store: "recents.json".to_owned(),
            release_cover_store: "releases_cover".to_owned(),
            lyric_store: "lyrics".to_owned(),
            single_song_store: "lib".to_owned(),
            listen_paths: Vec::new(),
            debounce_timeout_ms: 2000,
            supported_audio_extensions,
        }
    }
}

/// The configuration document's name.
pub fn path() -> (r: String)
    ensures
        r@ == "config.json"@,
{
    "config.json".to_owned()
}

} // verus!
