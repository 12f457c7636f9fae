//! The lyric cache pipeline's naming rules: where a song's cached lyric
//! lives and where its sidecar lyric file is looked for. Reading and
//! writing the artifacts themselves happens at the filesystem boundary.

use vstd::prelude::*;
use crate::misc::Config;
use crate::paths::has_verbatim_prefix;
use crate::paths::join_spec;
use crate::paths::get_path_hash;
use crate::paths::join_path;
use crate::paths::path_hash_spec;
use crate::paths::replace_extension;
use crate::paths::resolve_resource_path;
use crate::paths::with_ext;

verus! {

/// One cached lyric: its raw text and the format it was found in.
#[derive(Debug)]
pub struct LyricCache {
    pub content: String,
    pub format: String,
}

/// The lyric cache's naming rules.
#[derive(Debug)]
pub struct LyricOp {}

impl LyricOp {
    /// The cache artifact for a song: the path hash with the lyric
    /// extension, under the lyric cache directory.
    pub fn cache_path(&self, lyric_dir: &str, song_path: &String) -> (r: String)
        ensures
            r@ == join_spec(lyric_dir@, with_ext(path_hash_spec(song_path@), "lrc"@)),
    {
        let hash = get_path_hash(song_path);
        let name = replace_extension(hash.as_str(), "lrc");
        join_path(lyric_dir, name.as_str())
    }

    /// The sidecar lyric file looked for next to the song itself.
    pub fn source_path(&self, song_path: &String) -> (r: String)
        ensures
            r@ == with_ext(song_path@, "lrc"@),
    {
        replace_extension(song_path.as_str(), "lrc")
    }
}

/// The lyric cache directory, resolved under the storage base: the joined
/// path, which only loses a leading Windows verbatim prefix where it
/// carries one.
pub fn get_lyric_dir_path(config: &Config) -> (r: String)
    ensures
        !has_verbatim_prefix(join_spec(config.store_base@, config.lyric_store@)) ==> r@
            == join_spec(config.store_base@, config.lyric_store@),
        has_verbatim_prefix(join_spec(config.store_base@, config.lyric_store@)) ==> r@
            == join_spec(config.store_base@, config.lyric_store@) || r@ == join_spec(
            config.store_base@,
            config.lyric_store@,
        ).skip(4),
{
    resolve_resource_path(&config.store_base, &config.lyric_store)
}

} // verus!
