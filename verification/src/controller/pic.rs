//! The artwork controller: owns the artwork cache's naming rules.

use vstd::prelude::*;
use crate::op::pic::PicOp;
use crate::op::pic::mime_ext;
use crate::paths::join_spec;
use crate::paths::path_hash_spec;
use crate::paths::with_ext;

verus! {

/// The artwork controller.
#[derive(Debug)]
pub struct PicController {
    pub op: PicOp,
}

impl PicController {
    pub fn new() -> (r: Self) {
        PicController { op: PicOp {} }
    }

    /// The owned cache rules.
    pub fn get_op(&self) -> (r: &PicOp)
        ensures
            r == &self.op,
    {
        &self.op
    }

    /// The cache artifact for a song under the given extension.
    pub fn cache_file(&self, art_dir: &str, song_path: &String, ext: &str) -> (r: String)
        ensures
            r@ == join_spec(art_dir@, with_ext(path_hash_spec(song_path@), ext@)),
    {
        self.op.cache_file(art_dir, song_path, ext)
    }

    /// Maps a picture's MIME type to the cache file extension.
    pub fn extension_for_mime(&self, mime: &str) -> (r: &'static str)
        ensures
            r@ == mime_ext(mime@),
    {
        self.op.extension_for_mime(mime)
    }

    /// Decides one song's cache refresh, as `PicOp::cache_action` does.
    pub fn cache_action(&self, hit: Option<String>, picture_mime: Option<Option<String>>) -> (r:
        crate::op::pic::ArtAction)
        ensures
            match hit {
                Some(e) => r matches crate::op::pic::ArtAction::Found { has_art } && has_art == (e@
                    != "img"@),
                None => match picture_mime {
                    Some(m) => r matches crate::op::pic::ArtAction::WritePicture { ext } && ext@
                        == (match m {
                        Some(s) => mime_ext(s@),
                        None => "img"@,
                    }),
                    None => r is WritePlaceholder,
                },
            },
    {
        self.op.cache_action(hit, picture_mime)
    }
}

} // verus!
