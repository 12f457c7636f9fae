//! The lyric controller: owns the lyric cache's naming rules.

use vstd::prelude::*;
use crate::op::lyric::LyricOp;
use crate::paths::join_spec;
use crate::paths::path_hash_spec;
use crate::paths::with_ext;

verus! {

/// The lyric controller.
#[derive(Debug)]
pub struct LyricController {
    pub op: LyricOp,
}

impl LyricController {
    pub fn new() -> (r: Self) {
        LyricController { op: LyricOp {} }
    }

    /// The owned cache rules.
    pub fn get_op(&self) -> (r: &LyricOp)
        ensures
            r == &self.op,
    {
        &self.op
    }

    /// The cache artifact for a song, under the lyric cache directory.
    pub fn cache_path(&self, lyric_dir: &str, song_path: &String) -> (r: String)
        ensures
            r@ == join_spec(lyric_dir@, with_ext(path_hash_spec(song_path@), "lrc"@)),
    {
        self.op.cache_path(lyric_dir, song_path)
    }

    /// The sidecar lyric file looked for next to the song itself.
    pub fn source_path(&self, song_path: &String) -> (r: String)
        ensures
            r@ == with_ext(song_path@, "lrc"@),
    {
        self.op.source_path(song_path)
    }
}

} // verus!
