//! The artwork cache pipeline's naming rules: where a song's cached cover
//! lives, which file extension an embedded picture's MIME type maps to,
//! and which extensions a cache probe tries. Reading tags and writing the
//! artifacts themselves happens at the filesystem boundary.

use vstd::prelude::*;
use crate::misc::Config;
use crate::paths::has_verbatim_prefix;
use crate::paths::join_spec;
use crate::paths::get_path_hash;
use crate::paths::join_path;
use crate::paths::path_hash_spec;
use crate::paths::replace_extension;
use crate::paths::resolve_resource_path;
use crate::paths::with_ext;
use crate::text::str_eq;

verus! {

/// The file extension a picture's MIME type maps to; anything unknown
/// falls back to the generic image extension.
pub open spec fn mime_ext(m: Seq<char>) -> Seq<char> {
    if m == "image/jpeg"@ {
        "jpg"@
    } else if m == "image/png"@ {
        "png"@
    } else if m == "image/bmp"@ {
        "bmp"@
    } else if m == "image/gif"@ {
        "gif"@
    } else if m == "image/webp"@ {
        "webp"@
    } else if m == "image/tiff"@ {
        "tiff"@
    } else {
        "img"@
    }
}

/// What refreshing one song's art cache must do, decided from a probe of
/// the existing artifacts and the file's embedded picture.
#[derive(Debug)]
pub enum ArtAction {
    /// a cached artifact already exists; the flag reports whether it is
    /// real art rather than the empty placeholder
    Found { has_art: bool },
    /// write the embedded picture under this extension and report art
    WritePicture { ext: String },
    /// write the empty placeholder and report no art
    WritePlaceholder,
}

/// The artwork cache's naming rules.
#[derive(Debug)]
pub struct PicOp {}

impl PicOp {
    /// The cache artifact for a song under the given extension: the path
    /// hash with that extension, under the artwork cache directory.
    pub fn cache_file(&self, art_dir: &str, song_path: &String, ext: &str) -> (r: String)
        ensures
            r@ == join_spec(art_dir@, with_ext(path_hash_spec(song_path@), ext@)),
    {
        let hash = get_path_hash(song_path);
        let name = replace_extension(hash.as_str(), ext);
        join_path(art_dir, name.as_str())
    }

    /// Maps a picture's MIME type to the cache file extension.
    pub fn extension_for_mime(&self, mime: &str) -> (r: &'static str)
        ensures
            r@ == mime_ext(mime@),
    {
        if str_eq(mime, "image/jpeg") {
            "jpg"
        } else if str_eq(mime, "image/png") {
            "png"
        } else if str_eq(mime, "image/bmp") {
            "bmp"
        } else if str_eq(mime, "image/gif") {
            "gif"
        } else if str_eq(mime, "image/webp") {
            "webp"
        } else if str_eq(mime, "image/tiff") {
            "tiff"
        } else {
            "img"
        }
    }

    /// Decides one song's cache refresh: an existing artifact is kept, and
    /// its extension says whether it is art; otherwise an embedded picture
    /// is written under its MIME type's extension, and a song without one
    /// gets the empty placeholder. `hit` is the extension of an existing
    /// artifact, if any; `picture_mime` is the embedded picture's optional
    /// MIME type, or nothing when the file has no picture.
    pub fn cache_action(&self, hit: Option<String>, picture_mime: Option<Option<String>>) -> (r:
        ArtAction)
        ensures
            match hit {
                Some(e) => r matches ArtAction::Found { has_art } && has_art == (e@ != "img"@),
                None => match picture_mime {
                    Some(m) => r matches ArtAction::WritePicture { ext } && ext@ == (match m {
                        Some(s) => mime_ext(s@),
                        None => "img"@,
                    }),
                    None => r is WritePlaceholder,
                },
            },
    {
        match hit {
            Some(e) => {
                let has_art = !str_eq(e.as_str(), "img");
                ArtAction::Found { has_art }
            },
            None => match picture_mime {
                Some(m) => {
                    let ext = match m {
                        Some(s) => self.extension_for_mime(s.as_str()).to_owned(),
                        None => "img".to_owned(),
                    };
                    ArtAction::WritePicture { ext }
                },
                None => ArtAction::WritePlaceholder,
            },
        }
    }

    /// The extensions a cache probe tries, picture formats first and the
    /// empty-placeholder extension last.
    pub fn probe_extensions(&self) -> (r: Vec<&'static str>)
        ensures
            r@.map_values(|s: &'static str| s@) =~= seq![
                "jpg"@,
                "jpeg"@,
                "png"@,
                "bmp"@,
                "gif"@,
                "webp"@,
                "tiff"@,
                "img"@,
            ],
    {
        let mut r: Vec<&'static str> = Vec::new();
        r.push("jpg");
        r.push("jpeg");
        r.push("png");
        r.push("bmp");
        r.push("gif");
        r.push("webp");
        r.push("tiff");
        r.push("img");
        r
    }
}

/// The artwork cache directory, resolved under the storage base: the
/// joined path, which only loses a leading Windows verbatim prefix where
/// it carries one.
pub fn get_art_dir_path(config: &Config) -> (r: String)
    ensures
        !has_verbatim_prefix(join_spec(config.store_base@, config.release_cover_store@)) ==> r@
            == join_spec(config.store_base@, config.release_cover_store@),
        has_verbatim_prefix(join_spec(config.store_base@, config.release_cover_store@)) ==> r@
            == join_spec(config.store_base@, config.release_cover_store@) || r@ == join_spec(
            config.store_base@,
            config.release_cover_store@,
        ).skip(4),
{
    resolve_resource_path(&config.store_base, &config.release_cover_store)
}

} // verus!
