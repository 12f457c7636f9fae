//! A curated list ("Alist"): a named, ordered sequence of heterogeneous
//! elements, each a value copy of a song, playlist, release or artist.

use vstd::prelude::*;
use crate::entity::artist::Artist;
use crate::entity::artist::ArtistView;
use crate::entity::list::Playlist;
use crate::entity::list::PlaylistView;
use crate::entity::release::Release;
use crate::entity::release::ReleaseView;
use crate::entity::song::Song;
use crate::entity::song::SongView;
use crate::model::Dup;

verus! {

/// One element of a curated list: a snapshot of the referenced entity at
/// the time it was added.
#[derive(Debug)]
pub enum Aelement {
    Song(Song),
    Playlist(Playlist),
    Release(Release),
    Artist(Artist),
}

/// The mathematical value of a curated-list element.
#[verifier::ext_equal]
pub enum AelementView {
    Song(SongView),
    Playlist(PlaylistView),
    Release(ReleaseView),
    Artist(ArtistView),
}

impl View for Aelement {
    type V = AelementView;

    open spec fn view(&self) -> AelementView {
        match self {
            Aelement::Song(s) => AelementView::Song(s@),
            Aelement::Playlist(p) => AelementView::Playlist(p@),
            Aelement::Release(r) => AelementView::Release(r@),
            Aelement::Artist(a) => AelementView::Artist(a@),
        }
    }
}

impl Clone for Aelement {
    fn clone(&self) -> (res: Self)
        ensures
            res@ == self@,
    {
        match self {
            Aelement::Song(s) => Aelement::Song(s.clone()),
            Aelement::Playlist(p) => Aelement::Playlist(p.clone()),
            Aelement::Release(r) => Aelement::Release(r.clone()),
            Aelement::Artist(a) => Aelement::Artist(a.clone()),
        }
    }
}

impl Dup for Aelement {
    fn dup(&self) -> (r: Self)
        ensures
            r@ == self@,
    {
        self.clone()
    }
}

/// The key a curated list is stored under: its name.
pub open spec fn al_key() -> spec_fn(AlistView) -> Seq<char> {
    |x: AlistView| x.name
}

/// Whether two elements denote the same entity, each compared by its own
/// identity: a song by path, a playlist or artist by name, a release by
/// title and artist.
pub open spec fn aelem_matches(a: AelementView, b: AelementView) -> bool {
    match (a, b) {
        (AelementView::Song(x), AelementView::Song(y)) => x.path == y.path,
        (AelementView::Playlist(x), AelementView::Playlist(y)) => x.name == y.name,
        (AelementView::Release(x), AelementView::Release(y)) => x.title == y.title && x.artist
            == y.artist,
        (AelementView::Artist(x), AelementView::Artist(y)) => x.name == y.name,
        _ => false,
    }
}

/// The song paths one element contributes when a list is flattened: a song
/// contributes itself, the others contribute their whole song sequences.
pub open spec fn element_songs(e: AelementView) -> Seq<Seq<char>> {
    match e {
        AelementView::Song(s) => seq![s.path],
        AelementView::Playlist(p) => p.songs,
        AelementView::Release(r) => r.songs,
        AelementView::Artist(a) => a.songs,
    }
}

/// Every element's song paths, flattened in encounter order.
pub open spec fn flat_songs(es: Seq<AelementView>) -> Seq<Seq<char>>
    decreases es.len(),
{
    if es.len() == 0 {
        Seq::empty()
    } else {
        flat_songs(es.drop_last()) + element_songs(es.last())
    }
}

/// Tests whether two elements denote the same entity, as `aelem_matches`
/// describes it.
pub fn aelem_matches_exec(a: &Aelement, b: &Aelement) -> (r: bool)
    ensures
        r == aelem_matches(a@, b@),
{
    match (a, b) {
        (Aelement::Song(x), Aelement::Song(y)) => x.path.eq(&y.path),
        (Aelement::Playlist(x), Aelement::Playlist(y)) => x.name.eq(&y.name),
        (Aelement::Release(x), Aelement::Release(y)) => x.title.eq(&y.title)
            && crate::entity::song::opt_string_eq(&x.artist, &y.artist),
        (Aelement::Artist(x), Aelement::Artist(y)) => x.name.eq(&y.name),
        _ => false,
    }
}

/// Appends the song paths one element contributes to the flattened list.
pub fn append_element_songs(out: &mut Vec<String>, e: &Aelement)
    ensures
        crate::model::views_of(final(out)@) == crate::model::views_of(old(out)@) + element_songs(
            e@,
        ),
{
    let ghost prev = crate::model::views_of(old(out)@);
    match e {
        Aelement::Song(s) => {
            out.push(s.path.clone());
            proof {
                assert(crate::model::views_of(out@) =~= prev + element_songs(e@));
            }
        },
        Aelement::Playlist(p) => {
            let mut part = crate::model::dup_strings(&p.songs);
            out.append(&mut part);
            proof {
                assert(crate::model::views_of(out@) =~= prev + element_songs(e@));
            }
        },
        Aelement::Release(r) => {
            let mut part = crate::model::dup_strings(&r.songs);
            out.append(&mut part);
            proof {
                assert(crate::model::views_of(out@) =~= prev + element_songs(e@));
            }
        },
        Aelement::Artist(a) => {
            let mut part = crate::model::dup_strings(&a.songs);
            out.append(&mut part);
            proof {
                assert(crate::model::views_of(out@) =~= prev + element_songs(e@));
            }
        },
    }
}

/// A curated list record. Identity is the name alone.
#[derive(Debug)]
pub struct Alist {
    pub name: String,
    pub created_at: String,
    pub elements: Vec<Aelement>,
}

/// The mathematical value of a curated list.
#[verifier::ext_equal]
pub struct AlistView {
    pub name: Seq<char>,
    pub created_at: Seq<char>,
    pub elements: Seq<AelementView>,
}

impl View for Alist {
    type V = AlistView;

    open spec fn view(&self) -> AlistView {
        AlistView {
            name: self.name@,
            created_at: self.created_at@,
            elements: self.elements@.map_values(|e: Aelement| e@),
        }
    }
}

impl Clone for Alist {
    fn clone(&self) -> (res: Self)
        ensures
            res@ == self@,
    {
        let mut elements: Vec<Aelement> = Vec::new();
        let mut i: usize = 0;
        while i < self.elements.len()
            invariant
                i <= self.elements.len(),
                elements@.len() == i,
                forall|j: int| 0 <= j < i ==> elements@[j]@ == #[trigger] self.elements@[j]@,
            decreases self.elements.len() - i,
        {
            elements.push(self.elements[i].clone());
            i = i + 1;
        }
        proof {
            assert(elements@.map_values(|e: Aelement| e@) =~= self.elements@.map_values(
                |e: Aelement| e@,
            ));
        }
        Alist { name: self.name.clone(), created_at: self.created_at.clone(), elements }
    }
}

impl Dup for Alist {
    fn dup(&self) -> (r: Self)
        ensures
            r@ == self@,
    {
        self.clone()
    }
}

impl Alist {
    pub fn new(name: String, created_at: String, elements: Vec<Aelement>) -> (r: Self)
        ensures
            r@.name == name@,
            r@.created_at == created_at@,
            r@.elements == elements@.map_values(|e: Aelement| e@),
    {
        Alist { name, created_at, elements }
    }
}

} // verus!
