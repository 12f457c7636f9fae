//! A song record: keyed by its file path, carrying the tags read from the
//! file and the timestamps of the file's OS metadata.

use vstd::prelude::*;
use crate::model::Dup;
use crate::model::dup_opt_string;

verus! {

/// The closed set of quality tiers a song can be scored with.
#[derive(Clone, Copy, Debug, PartialEq, Eq, Structural)]
pub enum Score {
    SuperBigCupUp,
    SuperBigCup,
    SuperBigCupDown,
    BigCupUp,
    BigCup,
    BigCupDown,
    MedCupUp,
    MedCup,
    MedCupDown,
    HardToSay,
    SuperSmallCup,
}

/// The key a song is stored under: its path.
pub open spec fn song_key() -> spec_fn(SongView) -> Seq<char> {
    |x: SongView| x.path
}

/// The paths of a sequence of song records, in order.
pub open spec fn song_paths(s: Seq<SongView>) -> Seq<Seq<char>> {
    s.map_values(|x: SongView| x.path)
}

/// The view of an optional string.
pub open spec fn opt_view(o: Option<String>) -> Option<Seq<char>> {
    match o {
        Some(s) => Some(s@),
        None => None,
    }
}

/// Compares two optional strings by their views.
pub fn opt_string_eq(a: &Option<String>, b: &Option<String>) -> (r: bool)
    ensures
        r == (opt_view(*a) == opt_view(*b)),
{
    match (a, b) {
        (Some(x), Some(y)) => x.eq(y),
        (None, None) => true,
        _ => false,
    }
}

/// A song record. Identity is the file path alone: two records with the
/// same path denote the same song.
#[derive(Debug)]
pub struct Song {
    pub path: String,
    pub title: Option<String>,
    pub duration: Option<u32>,
    pub score: Option<Score>,
    pub created_at: String,
    pub updated_at: String,
    pub artist: Option<String>,
    pub release: Option<String>,
}

/// The mathematical value of a song record.
#[verifier::ext_equal]
pub struct SongView {
    pub path: Seq<char>,
    pub title: Option<Seq<char>>,
    pub duration: Option<u32>,
    pub score: Option<Score>,
    pub created_at: Seq<char>,
    pub updated_at: Seq<char>,
    pub artist: Option<Seq<char>>,
    pub release: Option<Seq<char>>,
}

impl View for Song {
    type V = SongView;

    open spec fn view(&self) -> SongView {
        SongView {
            path: self.path@,
            title: opt_view(self.title),
            duration: self.duration,
            score: self.score,
            created_at: self.created_at@,
            updated_at: self.updated_at@,
            artist: opt_view(self.artist),
            release: opt_view(self.release),
        }
    }
}

impl Clone for Song {
    fn clone(&self) -> (res: Self)
        ensures
            res == *self,
    {
        Song {
            path: self.path.clone(),
            title: dup_opt_string(&self.title),
            duration: self.duration,
            score: self.score,
            created_at: self.created_at.clone(),
            updated_at: self.updated_at.clone(),
            artist: dup_opt_string(&self.artist),
            release: dup_opt_string(&self.release),
        }
    }
}

impl Dup for Song {
    fn dup(&self) -> (r: Self)
        ensures
            r@ == self@,
    {
        self.clone()
    }
}

/// What the external tag reader reports for one audio file: the optional
/// text tags, the decoded duration, and any score stored in the comment tag.
#[derive(Debug)]
pub struct TagData {
    pub title: Option<String>,
    pub artist: Option<String>,
    pub album: Option<String>,
    pub duration: u32,
    pub comment_score: Option<Score>,
}

impl Song {
    pub fn new(
        path: String,
        title: Option<String>,
        duration: Option<u32>,
        score: Option<Score>,
        created_at: String,
        updated_at: String,
        artist: Option<String>,
        release: Option<String>,
    ) -> (r: Self)
        ensures
            r == (Song { path, title, duration, score, created_at, updated_at, artist, release }),
    {
        Song { path, title, duration, score, created_at, updated_at, artist, release }
    }

    /// A probe record carrying only a path, used to address the store by key.
    pub fn sample(path: String) -> (r: Self)
        ensures
            r@.path == path@,
            r@.title is None,
            r@.duration is None,
            r@.score is None,
            r@.created_at.len() == 0,
            r@.updated_at.len() == 0,
            r@.artist is None,
            r@.release is None,
    {
        Song {
            path,
            title: None,
            duration: None,
            score: None,
            created_at: String::new(),
            updated_at: String::new(),
            artist: None,
            release: None,
        }
    }

    /// Builds the record for a freshly parsed file. A score passed in by the
    /// caller (the one already stored for this path) wins over one read from
    /// the file's comment tag.
    pub fn from_tag(
        path: String,
        tag: TagData,
        created_at: String,
        updated_at: String,
        prior_score: Option<Score>,
    ) -> (r: Self)
        ensures
            r@.path == path@,
            r@.title == opt_view(tag.title),
            r@.duration == Some(tag.duration),
            r@.artist == opt_view(tag.artist),
            r@.release == opt_view(tag.album),
            r@.created_at == created_at@,
            r@.updated_at == updated_at@,
            r@.score == if prior_score is Some {
                prior_score
            } else {
                tag.comment_score
            },
    {
        let score = match prior_score {
            Some(s) => Some(s),
            None => tag.comment_score,
        };
        Song {
            path,
            title: tag.title,
            duration: Some(tag.duration),
            score,
            created_at,
            updated_at,
            artist: tag.artist,
            release: tag.album,
        }
    }
}

} // verus!
