//! The derived artist view: grouping the current song set by artist name,
//! with songs lacking an artist gathered under a sentinel group. The
//! grouping is a pure function of the song sequence, built in ascending
//! name order, so recomputation always reproduces it exactly.

use vstd::prelude::*;
use crate::entity::artist::Artist;
use crate::entity::artist::ArtistView;
use crate::entity::song::Song;
use crate::entity::song::SongView;
use crate::error::CoreError;
use crate::error::CoreResult;
use crate::model::lemma_views_of_index;
use crate::model::lemma_views_of_len;
use crate::model::views_of;
use crate::sm::StoreManager;
use crate::sm::load_model;
use crate::text::lex_lt;
use crate::text::str_eq;
use crate::text::str_lt;

verus! {

broadcast use lemma_views_of_index, lemma_views_of_len;

/// The artist group a song belongs to: its artist name, or the sentinel
/// group for songs without one.
pub open spec fn art_key(s: SongView) -> Seq<char> {
    match s.artist {
        Some(a) => a,
        None => "Unknown Artist"@,
    }
}

/// Adds one song path to the group of the given name, keeping the groups
/// in ascending name order: an existing group gets the path appended, a
/// missing one is created at its ordered position.
pub open spec fn upsert_artist(groups: Seq<ArtistView>, n: Seq<char>, p: Seq<char>) -> Seq<
    ArtistView,
>
    decreases groups.len(),
{
    if groups.len() == 0 {
        seq![(ArtistView { name: n, songs: seq![p] })]
    } else if groups[0].name == n {
        seq![(ArtistView { name: n, songs: groups[0].songs.push(p) })] + groups.skip(1)
    } else if lex_lt(n, groups[0].name) {
        seq![(ArtistView { name: n, songs: seq![p] })] + groups
    } else {
        seq![groups[0]] + upsert_artist(groups.skip(1), n, p)
    }
}

/// The artist view of a song sequence: every song folded into its group.
pub open spec fn artists_spec(songs: Seq<SongView>) -> Seq<ArtistView>
    decreases songs.len(),
{
    if songs.len() == 0 {
        Seq::empty()
    } else {
        upsert_artist(artists_spec(songs.drop_last()), art_key(songs.last()), songs.last().path)
    }
}

/// Every group an upsert yields bears either the upserted name or one
/// already present.
proof fn lemma_upsert_artist_names(g: Seq<ArtistView>, n: Seq<char>, p: Seq<char>, k: int)
    requires
        0 <= k < upsert_artist(g, n, p).len(),
    ensures
        upsert_artist(g, n, p)[k].name == n || exists|j: int|
            0 <= j < g.len() && (#[trigger] g[j]).name == upsert_artist(g, n, p)[k].name,
    decreases g.len(),
{
    if g.len() == 0 {
    } else if g[0].name == n {
        if k > 0 {
            assert(upsert_artist(g, n, p)[k] == g.skip(1)[k - 1]);
            assert(g[k].name == upsert_artist(g, n, p)[k].name);
        }
    } else if lex_lt(n, g[0].name) {
        if k > 0 {
            assert(upsert_artist(g, n, p)[k] == g[k - 1]);
        }
    } else {
        if k == 0 {
            assert(upsert_artist(g, n, p)[0] == g[0]);
        } else {
            lemma_upsert_artist_names(g.skip(1), n, p, k - 1);
            assert(upsert_artist(g, n, p)[k] == upsert_artist(g.skip(1), n, p)[k - 1]);
            if upsert_artist(g.skip(1), n, p)[k - 1].name != n {
                let j = choose|j: int|
                    0 <= j < g.skip(1).len() && (#[trigger] g.skip(1)[j]).name == upsert_artist(
                        g.skip(1),
                        n,
                        p,
                    )[k - 1].name;
                assert(g[j + 1].name == upsert_artist(g, n, p)[k].name);
            }
        }
    }
}

/// An upsert into groups in strictly ascending name order keeps them so.
proof fn lemma_upsert_artist_sorted(g: Seq<ArtistView>, n: Seq<char>, p: Seq<char>)
    requires
        forall|i: int, j: int|
            0 <= i < j < g.len() ==> lex_lt((#[trigger] g[i]).name, (#[trigger] g[j]).name),
    ensures
        forall|i: int, j: int|
            0 <= i < j < upsert_artist(g, n, p).len() ==> lex_lt(
                (#[trigger] upsert_artist(g, n, p)[i]).name,
                (#[trigger] upsert_artist(g, n, p)[j]).name,
            ),
    decreases g.len(),
{
    let out = upsert_artist(g, n, p);
    if g.len() == 0 {
    } else if g[0].name == n {
        assert forall|i: int, j: int| 0 <= i < j < out.len() implies lex_lt(
            (#[trigger] out[i]).name,
            (#[trigger] out[j]).name,
        ) by {
            assert(out[i].name == g[i].name);
            assert(out[j].name == g[j].name);
        }
    } else if lex_lt(n, g[0].name) {
        assert forall|i: int, j: int| 0 <= i < j < out.len() implies lex_lt(
            (#[trigger] out[i]).name,
            (#[trigger] out[j]).name,
        ) by {
            if i == 0 {
                if j > 1 {
                    crate::text::lemma_lex_lt_transitive(n, g[0].name, g[j - 1].name);
                }
            } else {
                assert(out[i].name == g[i - 1].name);
                assert(out[j].name == g[j - 1].name);
            }
        }
    } else {
        let rest = upsert_artist(g.skip(1), n, p);
        lemma_upsert_artist_sorted(g.skip(1), n, p);
        // neither equal nor preceded by the upserted name: the head precedes it
        if !lex_lt(g[0].name, n) {
            crate::text::lemma_lex_lt_connected(g[0].name, n);
        }
        assert(lex_lt(g[0].name, n));
        assert forall|i: int, j: int| 0 <= i < j < out.len() implies lex_lt(
            (#[trigger] out[i]).name,
            (#[trigger] out[j]).name,
        ) by {
            if i == 0 {
                assert(out[j] == rest[j - 1]);
                lemma_upsert_artist_names(g.skip(1), n, p, j - 1);
                if rest[j - 1].name == n {
                    assert(lex_lt(g[0].name, n));
                } else {
                    let m = choose|m: int|
                        0 <= m < g.skip(1).len() && (#[trigger] g.skip(1)[m]).name == rest[
                            j - 1
                        ].name;
                    assert(g[m + 1].name == rest[j - 1].name);
                    assert(lex_lt(g[0].name, g[m + 1].name));
                }
            } else {
                assert(out[i] == rest[i - 1]);
                assert(out[j] == rest[j - 1]);
            }
        }
    }
}

/// The artist view lists its groups in strictly ascending name order, so
/// no two groups share a name.
pub proof fn lemma_artists_spec_sorted(songs: Seq<SongView>)
    ensures
        forall|i: int, j: int|
            0 <= i < j < artists_spec(songs).len() ==> lex_lt(
                (#[trigger] artists_spec(songs)[i]).name,
                (#[trigger] artists_spec(songs)[j]).name,
            ),
    decreases songs.len(),
{
    if songs.len() > 0 {
        lemma_artists_spec_sorted(songs.drop_last());
        lemma_upsert_artist_sorted(
            artists_spec(songs.drop_last()),
            art_key(songs.last()),
            songs.last().path,
        );
    }
}

proof fn lemma_upsert_artist_at(g: Seq<ArtistView>, n: Seq<char>, p: Seq<char>, j: int)
    requires
        0 <= j <= g.len(),
        forall|m: int| 0 <= m < j ==> (#[trigger] g[m]).name != n && !lex_lt(n, g[m].name),
    ensures
        j < g.len() && g[j].name == n ==> upsert_artist(g, n, p) == g.take(j) + seq![
            (ArtistView { name: n, songs: g[j].songs.push(p) }),
        ] + g.skip(j + 1),
        j < g.len() && g[j].name != n && lex_lt(n, g[j].name) ==> upsert_artist(g, n, p) == g.take(
            j,
        ) + seq![(ArtistView { name: n, songs: seq![p] })] + g.skip(j),
        j == g.len() ==> upsert_artist(g, n, p) == g + seq![
            (ArtistView { name: n, songs: seq![p] }),
        ],
    decreases j,
{
    if j == 0 {
        if g.len() == 0 {
            assert(upsert_artist(g, n, p) =~= g + seq![(ArtistView { name: n, songs: seq![p] })]);
        } else {
            if g[0].name == n {
                assert(upsert_artist(g, n, p) =~= g.take(0) + seq![
                    (ArtistView { name: n, songs: g[0].songs.push(p) }),
                ] + g.skip(1));
            } else if lex_lt(n, g[0].name) {
                assert(upsert_artist(g, n, p) =~= g.take(0) + seq![
                    (ArtistView { name: n, songs: seq![p] }),
                ] + g.skip(0));
            }
        }
    } else {
        assert(g[0].name != n && !lex_lt(n, g[0].name));
        let rest = g.skip(1);
        assert forall|m: int| 0 <= m < j - 1 implies (#[trigger] rest[m]).name != n && !lex_lt(
            n,
            rest[m].name,
        ) by {
            assert(rest[m] == g[m + 1]);
        }
        lemma_upsert_artist_at(rest, n, p, j - 1);
        assert(upsert_artist(g, n, p) == seq![g[0]] + upsert_artist(rest, n, p));
        if j < g.len() {
            assert(rest[j - 1] == g[j]);
            if g[j].name == n {
                assert(seq![g[0]] + (rest.take(j - 1) + seq![
                    (ArtistView { name: n, songs: g[j].songs.push(p) }),
                ] + rest.skip(j)) =~= g.take(j) + seq![
                    (ArtistView { name: n, songs: g[j].songs.push(p) }),
                ] + g.skip(j + 1));
            } else if lex_lt(n, g[j].name) {
                assert(seq![g[0]] + (rest.take(j - 1) + seq![
                    (ArtistView { name: n, songs: seq![p] }),
                ] + rest.skip(j - 1)) =~= g.take(j) + seq![
                    (ArtistView { name: n, songs: seq![p] }),
                ] + g.skip(j));
            }
        } else {
            assert(seq![g[0]] + (rest + seq![(ArtistView { name: n, songs: seq![p] })]) =~= g
                + seq![(ArtistView { name: n, songs: seq![p] })]);
        }
    }
}

/// Folds one song path into the group vector, as `upsert_artist` describes.
#[verifier::loop_isolation(false)]
fn upsert_group(groups: &mut Vec<Artist>, name: String, path: String)
    ensures
        views_of(final(groups)@) == upsert_artist(views_of(old(groups)@), name@, path@),
{
    let ghost g = views_of(old(groups)@);
    let mut j: usize = 0;
    while j < groups.len()
        invariant
            j <= groups.len(),
            g == views_of(groups@),
            forall|m: int| 0 <= m < j ==> (#[trigger] g[m]).name != name@ && !lex_lt(
                name@,
                g[m].name,
            ),
        decreases groups.len() - j,
    {
        let equal = str_eq(groups[j].name.as_str(), name.as_str());
        if equal {
            proof {
                lemma_upsert_artist_at(g, name@, path@, j as int);
            }
            let mut grp = groups.remove(j);
            grp.songs.push(path);
            let ghost newsongs = grp@.songs;
            groups.insert(j, grp);
            proof {
                assert(newsongs =~= g[j as int].songs.push(path@));
                assert(views_of(groups@) =~~= g.take(j as int) + seq![
                    (ArtistView { name: name@, songs: g[j as int].songs.push(path@) }),
                ] + g.skip(j + 1));
            }
            return ;
        }
        let before = str_lt(name.as_str(), groups[j].name.as_str());
        if before {
            proof {
                lemma_upsert_artist_at(g, name@, path@, j as int);
            }
            let mut songs: Vec<String> = Vec::new();
            songs.push(path);
            groups.insert(j, Artist { name, songs });
            proof {
                assert(views_of(groups@) =~~= g.take(j as int) + seq![
                    (ArtistView { name: views_of(groups@)[j as int].name, songs: seq![
                        views_of(groups@)[j as int].songs[0],
                    ] }),
                ] + g.skip(j as int));
            }
            return ;
        }
        j = j + 1;
    }
    proof {
        lemma_upsert_artist_at(g, name@, path@, g.len() as int);
    }
    let mut songs: Vec<String> = Vec::new();
    songs.push(path);
    groups.push(Artist { name, songs });
    proof {
        assert(views_of(groups@) =~~= g + seq![
            (ArtistView { name: views_of(groups@).last().name, songs: seq![
                views_of(groups@).last().songs[0],
            ] }),
        ]);
    }
}

/// The derived artist view over the song document store.
pub struct ArtistOp {
    pub sm: StoreManager<Song>,
}

impl ArtistOp {
    /// The stored song collection backing the view.
    pub open spec fn contents(&self) -> Option<Seq<SongView>> {
        load_model(self.sm.model())
    }

    pub fn new(sm: StoreManager<Song>) -> (r: Self)
        ensures
            r.contents() == load_model(sm.model()),
    {
        ArtistOp { sm }
    }

    /// Groups the given songs by artist name, in ascending name order.
    pub fn from_songs(&self, songs: &Vec<Song>) -> (r: Vec<Artist>)
        ensures
            views_of(r@) == artists_spec(views_of(songs@)),
    {
        let mut groups: Vec<Artist> = Vec::new();
        let mut i: usize = 0;
        proof {
            assert(views_of(songs@).take(0) =~= Seq::<SongView>::empty());
            assert(views_of(groups@) =~= artists_spec(views_of(songs@).take(0)));
        }
        while i < songs.len()
            invariant
                i <= songs.len(),
                views_of(groups@) == artists_spec(views_of(songs@).take(i as int)),
            decreases songs.len() - i,
        {
            let name: String = match &songs[i].artist {
                Some(a) => a.clone(),
                None => "Unknown Artist".to_owned(),
            };
            proof {
                assert(name@ == art_key(views_of(songs@)[i as int]));
            }
            upsert_group(&mut groups, name, songs[i].path.clone());
            proof {
                assert(views_of(songs@).take(i + 1).drop_last() =~= views_of(songs@).take(i as int));
                assert(views_of(songs@).take(i + 1).last() == views_of(songs@)[i as int]);
            }
            i = i + 1;
        }
        proof {
            assert(views_of(songs@).take(songs@.len() as int) =~= views_of(songs@));
        }
        groups
    }

    /// The artist view of the stored song collection.
    pub fn list_all(&self) -> (r: CoreResult<Vec<Artist>>)
        ensures
            match self.contents() {
                None => r == Err::<Vec<Artist>, CoreError>(CoreError::StorageCorrupt),
                Some(s) => r matches Ok(v) && views_of(v@) == artists_spec(s),
            },
    {
        let loaded = self.sm.load();
        let songs = match loaded {
            Ok(v) => v,
            Err(e) => {
                return Err(e);
            },
        };
        Ok(self.from_songs(&songs))
    }
}

} // verus!
