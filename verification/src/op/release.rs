//! The derived release view: grouping songs by release title and artist,
//! with songs lacking a release title gathered under a sentinel title. The
//! grouping is a pure function of the song sequence, built in ascending
//! (title, artist) order, so recomputation always reproduces it exactly.

use vstd::prelude::*;
use crate::entity::release::Release;
use crate::entity::release::ReleaseView;
use crate::entity::song::Song;
use crate::entity::song::SongView;
use crate::entity::song::opt_string_eq;
use crate::entity::song::opt_view;
use crate::error::CoreError;
use crate::error::CoreResult;
use crate::model::dup_strings;
use crate::model::lemma_views_of_index;
use crate::model::lemma_views_of_len;
use crate::model::views_of;
use crate::op::song::add_songs_spec;
use crate::op::song::by_artist_release;
use crate::sm::StoreManager;
use crate::sm::load_model;
use crate::text::lex_lt;
use crate::text::str_eq;
use crate::text::str_lt;

verus! {

broadcast use lemma_views_of_index, lemma_views_of_len;

/// The release title a song groups under: its release tag, or the sentinel
/// title for songs without one.
pub open spec fn rel_title(s: SongView) -> Seq<char> {
    match s.release {
        Some(t) => t,
        None => "unknown_release"@,
    }
}

/// Order on optional artist names: an absent artist comes first.
pub open spec fn opt_lt(a: Option<Seq<char>>, b: Option<Seq<char>>) -> bool {
    match (a, b) {
        (None, Some(y)) => true,
        (Some(x), Some(y)) => lex_lt(x, y),
        _ => false,
    }
}

/// Order on release keys: by title, then by artist.
pub open spec fn rel_before(
    t1: Seq<char>,
    a1: Option<Seq<char>>,
    t2: Seq<char>,
    a2: Option<Seq<char>>,
) -> bool {
    lex_lt(t1, t2) || (t1 == t2 && opt_lt(a1, a2))
}

/// Adds song paths to the group with the given title and artist, keeping
/// the groups in ascending key order: an existing group gets the paths
/// appended, a missing one is created at its ordered position.
pub open spec fn upsert_release(
    groups: Seq<ReleaseView>,
    t: Seq<char>,
    a: Option<Seq<char>>,
    ps: Seq<Seq<char>>,
) -> Seq<ReleaseView>
    decreases groups.len(),
{
    if groups.len() == 0 {
        seq![(ReleaseView { title: t, artist: a, songs: ps })]
    } else if groups[0].title == t && groups[0].artist == a {
        seq![(ReleaseView { title: t, artist: a, songs: groups[0].songs + ps })] + groups.skip(1)
    } else if rel_before(t, a, groups[0].title, groups[0].artist) {
        seq![(ReleaseView { title: t, artist: a, songs: ps })] + groups
    } else {
        seq![groups[0]] + upsert_release(groups.skip(1), t, a, ps)
    }
}

/// The release view of a song sequence: every song folded into its group.
pub open spec fn releases_spec(songs: Seq<SongView>) -> Seq<ReleaseView>
    decreases songs.len(),
{
    if songs.len() == 0 {
        Seq::empty()
    } else {
        upsert_release(
            releases_spec(songs.drop_last()),
            rel_title(songs.last()),
            songs.last().artist,
            seq![songs.last().path],
        )
    }
}

/// Existing release groups folded into an ordered grouping.
pub open spec fn merge_base(rels: Seq<ReleaseView>) -> Seq<ReleaseView>
    decreases rels.len(),
{
    if rels.len() == 0 {
        Seq::empty()
    } else {
        upsert_release(
            merge_base(rels.drop_last()),
            rels.last().title,
            rels.last().artist,
            rels.last().songs,
        )
    }
}

/// Existing release groups merged with the groups of a song sequence.
pub open spec fn releases_merge_spec(rels: Seq<ReleaseView>, songs: Seq<SongView>) -> Seq<
    ReleaseView,
>
    decreases songs.len(),
{
    if songs.len() == 0 {
        merge_base(rels)
    } else {
        upsert_release(
            releases_merge_spec(rels, songs.drop_last()),
            rel_title(songs.last()),
            songs.last().artist,
            seq![songs.last().path],
        )
    }
}

/// The songs that are not on the given release by the given artist.
pub open spec fn not_on_release(a: Seq<char>, t: Seq<char>) -> spec_fn(SongView) -> bool {
    |x: SongView| !(x.artist == Some(a) && x.release == Some(t))
}

/// The release-key order is transitive.
proof fn lemma_rel_before_transitive(
    t1: Seq<char>,
    a1: Option<Seq<char>>,
    t2: Seq<char>,
    a2: Option<Seq<char>>,
    t3: Seq<char>,
    a3: Option<Seq<char>>,
)
    requires
        rel_before(t1, a1, t2, a2),
        rel_before(t2, a2, t3, a3),
    ensures
        rel_before(t1, a1, t3, a3),
{
    if lex_lt(t1, t2) && lex_lt(t2, t3) {
        crate::text::lemma_lex_lt_transitive(t1, t2, t3);
    }
    if t1 == t2 && t2 == t3 {
        match (a1, a2, a3) {
            (Some(x), Some(y), Some(z)) => {
                if lex_lt(x, y) && lex_lt(y, z) {
                    crate::text::lemma_lex_lt_transitive(x, y, z);
                }
            },
            _ => {},
        }
    }
}

/// Keys neither of which precedes the other are equal.
proof fn lemma_rel_before_connected(
    t1: Seq<char>,
    a1: Option<Seq<char>>,
    t2: Seq<char>,
    a2: Option<Seq<char>>,
)
    requires
        !rel_before(t1, a1, t2, a2),
        !rel_before(t2, a2, t1, a1),
    ensures
        t1 == t2 && a1 == a2,
{
    crate::text::lemma_lex_lt_connected(t1, t2);
    match (a1, a2) {
        (Some(x), Some(y)) => {
            crate::text::lemma_lex_lt_connected(x, y);
        },
        _ => {},
    }
}

/// Every group an upsert yields bears either the upserted key or one
/// already present.
proof fn lemma_upsert_release_names(
    g: Seq<ReleaseView>,
    t: Seq<char>,
    a: Option<Seq<char>>,
    ps: Seq<Seq<char>>,
    k: int,
)
    requires
        0 <= k < upsert_release(g, t, a, ps).len(),
    ensures
        (upsert_release(g, t, a, ps)[k].title == t && upsert_release(g, t, a, ps)[k].artist == a)
            || exists|j: int|
            0 <= j < g.len() && (#[trigger] g[j]).title == upsert_release(g, t, a, ps)[k].title
                && g[j].artist == upsert_release(g, t, a, ps)[k].artist,
    decreases g.len(),
{
    let out = upsert_release(g, t, a, ps);
    if g.len() == 0 {
    } else if g[0].title == t && g[0].artist == a {
        if k > 0 {
            assert(out[k] == g.skip(1)[k - 1]);
            assert(g[k].title == out[k].title && g[k].artist == out[k].artist);
        }
    } else if rel_before(t, a, g[0].title, g[0].artist) {
        if k > 0 {
            assert(out[k] == g[k - 1]);
        }
    } else {
        if k == 0 {
            assert(out[0] == g[0]);
        } else {
            lemma_upsert_release_names(g.skip(1), t, a, ps, k - 1);
            assert(out[k] == upsert_release(g.skip(1), t, a, ps)[k - 1]);
            if !(out[k].title == t && out[k].artist == a) {
                let j = choose|j: int|
                    0 <= j < g.skip(1).len() && (#[trigger] g.skip(1)[j]).title == out[k].title
                        && g.skip(1)[j].artist == out[k].artist;
                assert(g[j + 1].title == out[k].title && g[j + 1].artist == out[k].artist);
            }
        }
    }
}

/// An upsert into groups in strictly ascending key order keeps them so.
proof fn lemma_upsert_release_sorted(
    g: Seq<ReleaseView>,
    t: Seq<char>,
    a: Option<Seq<char>>,
    ps: Seq<Seq<char>>,
)
    requires
        forall|i: int, j: int|
            0 <= i < j < g.len() ==> rel_before(
                (#[trigger] g[i]).title,
                g[i].artist,
                (#[trigger] g[j]).title,
                g[j].artist,
            ),
    ensures
        forall|i: int, j: int|
            0 <= i < j < upsert_release(g, t, a, ps).len() ==> rel_before(
                (#[trigger] upsert_release(g, t, a, ps)[i]).title,
                upsert_release(g, t, a, ps)[i].artist,
                (#[trigger] upsert_release(g, t, a, ps)[j]).title,
                upsert_release(g, t, a, ps)[j].artist,
            ),
    decreases g.len(),
{
    let out = upsert_release(g, t, a, ps);
    if g.len() == 0 {
    } else if g[0].title == t && g[0].artist == a {
        assert forall|i: int, j: int| 0 <= i < j < out.len() implies rel_before(
            (#[trigger] out[i]).title,
            out[i].artist,
            (#[trigger] out[j]).title,
            out[j].artist,
        ) by {
            assert(out[i].title == g[i].title && out[i].artist == g[i].artist);
            assert(out[j].title == g[j].title && out[j].artist == g[j].artist);
        }
    } else if rel_before(t, a, g[0].title, g[0].artist) {
        assert forall|i: int, j: int| 0 <= i < j < out.len() implies rel_before(
            (#[trigger] out[i]).title,
            out[i].artist,
            (#[trigger] out[j]).title,
            out[j].artist,
        ) by {
            if i == 0 {
                if j > 1 {
                    lemma_rel_before_transitive(
                        t,
                        a,
                        g[0].title,
                        g[0].artist,
                        g[j - 1].title,
                        g[j - 1].artist,
                    );
                }
            } else {
                assert(out[i] == g[i - 1]);
                assert(out[j] == g[j - 1]);
            }
        }
    } else {
        let rest = upsert_release(g.skip(1), t, a, ps);
        lemma_upsert_release_sorted(g.skip(1), t, a, ps);
        // neither equal nor preceded by the upserted key: the head precedes it
        if !rel_before(g[0].title, g[0].artist, t, a) {
            lemma_rel_before_connected(g[0].title, g[0].artist, t, a);
        }
        assert(rel_before(g[0].title, g[0].artist, t, a));
        assert forall|i: int, j: int| 0 <= i < j < out.len() implies rel_before(
            (#[trigger] out[i]).title,
            out[i].artist,
            (#[trigger] out[j]).title,
            out[j].artist,
        ) by {
            if i == 0 {
                assert(out[j] == rest[j - 1]);
                lemma_upsert_release_names(g.skip(1), t, a, ps, j - 1);
                if rest[j - 1].title == t && rest[j - 1].artist == a {
                } else {
                    let m = choose|m: int|
                        0 <= m < g.skip(1).len() && (#[trigger] g.skip(1)[m]).title == rest[
                            j - 1
                        ].title && g.skip(1)[m].artist == rest[j - 1].artist;
                    assert(g[m + 1].title == rest[j - 1].title && g[m + 1].artist == rest[
                        j - 1
                    ].artist);
                    assert(rel_before(g[0].title, g[0].artist, g[m + 1].title, g[m + 1].artist));
                }
            } else {
                assert(out[i] == rest[i - 1]);
                assert(out[j] == rest[j - 1]);
            }
        }
    }
}

/// The release view lists its groups in strictly ascending (title, artist)
/// order, so no two groups share a key.
pub proof fn lemma_releases_spec_sorted(songs: Seq<SongView>)
    ensures
        forall|i: int, j: int|
            0 <= i < j < releases_spec(songs).len() ==> rel_before(
                (#[trigger] releases_spec(songs)[i]).title,
                releases_spec(songs)[i].artist,
                (#[trigger] releases_spec(songs)[j]).title,
                releases_spec(songs)[j].artist,
            ),
    decreases songs.len(),
{
    if songs.len() > 0 {
        lemma_releases_spec_sorted(songs.drop_last());
        lemma_upsert_release_sorted(
            releases_spec(songs.drop_last()),
            rel_title(songs.last()),
            songs.last().artist,
            seq![songs.last().path],
        );
    }
}

proof fn lemma_upsert_release_at(
    g: Seq<ReleaseView>,
    t: Seq<char>,
    a: Option<Seq<char>>,
    ps: Seq<Seq<char>>,
    j: int,
)
    requires
        0 <= j <= g.len(),
        forall|m: int|
            0 <= m < j ==> !((#[trigger] g[m]).title == t && g[m].artist == a) && !rel_before(
                t,
                a,
                g[m].title,
                g[m].artist,
            ),
    ensures
        j < g.len() && g[j].title == t && g[j].artist == a ==> upsert_release(g, t, a, ps)
            == g.take(j) + seq![(ReleaseView { title: t, artist: a, songs: g[j].songs + ps })]
            + g.skip(j + 1),
        j < g.len() && !(g[j].title == t && g[j].artist == a) && rel_before(
            t,
            a,
            g[j].title,
            g[j].artist,
        ) ==> upsert_release(g, t, a, ps) == g.take(j) + seq![
            (ReleaseView { title: t, artist: a, songs: ps }),
        ] + g.skip(j),
        j == g.len() ==> upsert_release(g, t, a, ps) == g + seq![
            (ReleaseView { title: t, artist: a, songs: ps }),
        ],
    decreases j,
{
    if j == 0 {
        if g.len() == 0 {
            assert(upsert_release(g, t, a, ps) =~= g + seq![
                (ReleaseView { title: t, artist: a, songs: ps }),
            ]);
        } else {
            if g[0].title == t && g[0].artist == a {
                assert(upsert_release(g, t, a, ps) =~= g.take(0) + seq![
                    (ReleaseView { title: t, artist: a, songs: g[0].songs + ps }),
                ] + g.skip(1));
            } else if rel_before(t, a, g[0].title, g[0].artist) {
                assert(upsert_release(g, t, a, ps) =~= g.take(0) + seq![
                    (ReleaseView { title: t, artist: a, songs: ps }),
                ] + g.skip(0));
            }
        }
    } else {
        assert(!(g[0].title == t && g[0].artist == a) && !rel_before(t, a, g[0].title, g[0].artist));
        let rest = g.skip(1);
        assert forall|m: int| 0 <= m < j - 1 implies !((#[trigger] rest[m]).title == t
            && rest[m].artist == a) && !rel_before(t, a, rest[m].title, rest[m].artist) by {
            assert(rest[m] == g[m + 1]);
        }
        lemma_upsert_release_at(rest, t, a, ps, j - 1);
        assert(upsert_release(g, t, a, ps) == seq![g[0]] + upsert_release(rest, t, a, ps));
        if j < g.len() {
            assert(rest[j - 1] == g[j]);
            if g[j].title == t && g[j].artist == a {
                assert(seq![g[0]] + (rest.take(j - 1) + seq![
                    (ReleaseView { title: t, artist: a, songs: g[j].songs + ps }),
                ] + rest.skip(j)) =~= g.take(j) + seq![
                    (ReleaseView { title: t, artist: a, songs: g[j].songs + ps }),
                ] + g.skip(j + 1));
            } else if rel_before(t, a, g[j].title, g[j].artist) {
                assert(seq![g[0]] + (rest.take(j - 1) + seq![
                    (ReleaseView { title: t, artist: a, songs: ps }),
                ] + rest.skip(j - 1)) =~= g.take(j) + seq![
                    (ReleaseView { title: t, artist: a, songs: ps }),
                ] + g.skip(j));
            }
        } else {
            assert(seq![g[0]] + (rest + seq![(ReleaseView { title: t, artist: a, songs: ps })])
                =~= g + seq![(ReleaseView { title: t, artist: a, songs: ps })]);
        }
    }
}

/// Order test on optional names, as `opt_lt` describes it.
pub fn opt_str_lt(a: &Option<String>, b: &Option<String>) -> (r: bool)
    ensures
        r == opt_lt(opt_view(*a), opt_view(*b)),
{
    match (a, b) {
        (None, Some(_)) => true,
        (Some(x), Some(y)) => str_lt(x.as_str(), y.as_str()),
        _ => false,
    }
}

/// Folds song paths into the group vector, as `upsert_release` describes.
#[verifier::loop_isolation(false)]
fn upsert_rel_group(groups: &mut Vec<Release>, title: String, artist: Option<String>, ps: Vec<
    String,
>)
    ensures
        views_of(final(groups)@) == upsert_release(
            views_of(old(groups)@),
            title@,
            opt_view(artist),
            views_of(ps@),
        ),
{
    let ghost g = views_of(old(groups)@);
    let ghost t = title@;
    let ghost a = opt_view(artist);
    let ghost pv = views_of(ps@);
    let mut j: usize = 0;
    while j < groups.len()
        invariant
            j <= groups.len(),
            g == views_of(groups@),
            forall|m: int|
                0 <= m < j ==> !((#[trigger] g[m]).title == t && g[m].artist == a) && !rel_before(
                    t,
                    a,
                    g[m].title,
                    g[m].artist,
                ),
        decreases groups.len() - j,
    {
        let title_eq = str_eq(groups[j].title.as_str(), title.as_str());
        let artist_eq = opt_string_eq(&groups[j].artist, &artist);
        if title_eq && artist_eq {
            proof {
                lemma_upsert_release_at(g, t, a, pv, j as int);
            }
            let mut grp = groups.remove(j);
            let mut part = ps;
            grp.songs.append(&mut part);
            let ghost newsongs = grp@.songs;
            groups.insert(j, grp);
            proof {
                assert(newsongs =~= g[j as int].songs + pv);
                assert(views_of(groups@) =~~= g.take(j as int) + seq![
                    (ReleaseView { title: t, artist: a, songs: g[j as int].songs + pv }),
                ] + g.skip(j + 1));
            }
            return ;
        }
        let before = if str_lt(title.as_str(), groups[j].title.as_str()) {
            true
        } else if title_eq {
            opt_str_lt(&artist, &groups[j].artist)
        } else {
            false
        };
        if before {
            proof {
                lemma_upsert_release_at(g, t, a, pv, j as int);
            }
            groups.insert(j, Release { title, artist, songs: ps });
            proof {
                assert(views_of(groups@) =~~= g.take(j as int) + seq![
                    (ReleaseView { title: t, artist: a, songs: pv }),
                ] + g.skip(j as int));
            }
            return ;
        }
        j = j + 1;
    }
    proof {
        lemma_upsert_release_at(g, t, a, pv, g.len() as int);
    }
    groups.push(Release { title, artist, songs: ps });
    proof {
        assert(views_of(groups@) =~~= g + seq![(ReleaseView { title: t, artist: a, songs: pv })]);
    }
}

/// The derived release view over the song document store.
pub struct ReleaseOp {
    pub sm: StoreManager<Song>,
}

impl ReleaseOp {
    /// The stored song collection backing the view.
    pub open spec fn contents(&self) -> Option<Seq<SongView>> {
        load_model(self.sm.model())
    }

    pub fn new(sm: StoreManager<Song>) -> (r: Self)
        ensures
            r.contents() == load_model(sm.model()),
    {
        ReleaseOp { sm }
    }

    /// The single-song release group for one song, with the sentinel title
    /// when the song has no release tag.
    pub fn from_song(&self, song: &Song) -> (r: Release)
        ensures
            r@.title == rel_title(song@),
            r@.artist == song@.artist,
            r@.songs =~= seq![song@.path],
    {
        let title: String = match &song.release {
            Some(t) => t.clone(),
            None => "unknown_release".to_owned(),
        };
        let mut songs: Vec<String> = Vec::new();
        songs.push(song.path.clone());
        Release { title, artist: crate::model::dup_opt_string(&song.artist), songs }
    }

    /// Groups the given songs by release title and artist, in ascending
    /// key order.
    pub fn from_songs(&self, songs: &Vec<Song>) -> (r: Vec<Release>)
        ensures
            views_of(r@) == releases_spec(views_of(songs@)),
    {
        let mut groups: Vec<Release> = Vec::new();
        let mut i: usize = 0;
        proof {
            assert(views_of(songs@).take(0) =~= Seq::<SongView>::empty());
            assert(views_of(groups@) =~= releases_spec(views_of(songs@).take(0)));
        }
        while i < songs.len()
            invariant
                i <= songs.len(),
                views_of(groups@) == releases_spec(views_of(songs@).take(i as int)),
            decreases songs.len() - i,
        {
            let title: String = match &songs[i].release {
                Some(t) => t.clone(),
                None => "unknown_release".to_owned(),
            };
            let artist = crate::model::dup_opt_string(&songs[i].artist);
            let mut ps: Vec<String> = Vec::new();
            ps.push(songs[i].path.clone());
            proof {
                assert(title@ == rel_title(views_of(songs@)[i as int]));
                assert(views_of(ps@) =~= seq![views_of(songs@)[i as int].path]);
            }
            upsert_rel_group(&mut groups, title, artist, ps);
            proof {
                assert(views_of(songs@).take(i + 1).drop_last() =~= views_of(songs@).take(i as int));
                assert(views_of(songs@).take(i + 1).last() == views_of(songs@)[i as int]);
            }
            i = i + 1;
        }
        proof {
            assert(views_of(songs@).take(songs@.len() as int) =~= views_of(songs@));
        }
        groups
    }

    /// Merges existing release groups with the groups of the given songs,
    /// in ascending key order.
    pub fn from_songs_merge(&self, songs: &Vec<Song>, releases: &mut Vec<Release>) -> (r: Vec<
        Release,
    >)
        ensures
            final(releases)@ == old(releases)@,
            views_of(r@) == releases_merge_spec(views_of(old(releases)@), views_of(songs@)),
    {
        let mut groups: Vec<Release> = Vec::new();
        let ghost rels = views_of(releases@);
        let mut k: usize = 0;
        proof {
            assert(rels.take(0) =~= Seq::<ReleaseView>::empty());
            assert(views_of(groups@) =~= merge_base(rels.take(0)));
        }
        while k < releases.len()
            invariant
                k <= releases.len(),
                releases@ == old(releases)@,
                rels == views_of(releases@),
                views_of(groups@) == merge_base(rels.take(k as int)),
            decreases releases.len() - k,
        {
            let title = releases[k].title.clone();
            let artist = crate::model::dup_opt_string(&releases[k].artist);
            let ps = dup_strings(&releases[k].songs);
            proof {
                assert(views_of(ps@) =~= rels[k as int].songs);
            }
            upsert_rel_group(&mut groups, title, artist, ps);
            proof {
                assert(rels.take(k + 1).drop_last() =~= rels.take(k as int));
                assert(rels.take(k + 1).last() == rels[k as int]);
            }
            k = k + 1;
        }
        proof {
            assert(rels.take(releases@.len() as int) =~= rels);
        }
        let mut i: usize = 0;
        proof {
            assert(views_of(songs@).take(0) =~= Seq::<SongView>::empty());
        }
        while i < songs.len()
            invariant
                i <= songs.len(),
                releases@ == old(releases)@,
                views_of(groups@) == releases_merge_spec(
                    views_of(old(releases)@),
                    views_of(songs@).take(i as int),
                ),
            decreases songs.len() - i,
        {
            let title: String = match &songs[i].release {
                Some(t) => t.clone(),
                None => "unknown_release".to_owned(),
            };
            let artist = crate::model::dup_opt_string(&songs[i].artist);
            let mut ps: Vec<String> = Vec::new();
            ps.push(songs[i].path.clone());
            proof {
                assert(title@ == rel_title(views_of(songs@)[i as int]));
                assert(views_of(ps@) =~= seq![views_of(songs@)[i as int].path]);
            }
            upsert_rel_group(&mut groups, title, artist, ps);
            proof {
                assert(views_of(songs@).take(i + 1).drop_last() =~= views_of(songs@).take(i as int));
                assert(views_of(songs@).take(i + 1).last() == views_of(songs@)[i as int]);
            }
            i = i + 1;
        }
        proof {
            assert(views_of(songs@).take(songs@.len() as int) =~= views_of(songs@));
        }
        groups
    }

    /// The release view of the stored song collection.
    pub fn list_all(&self) -> (r: CoreResult<Vec<Release>>)
        ensures
            match self.contents() {
                None => r == Err::<Vec<Release>, CoreError>(CoreError::StorageCorrupt),
                Some(s) => r matches Ok(v) && views_of(v@) == releases_spec(s),
            },
    {
        let loaded = self.sm.load();
        let songs = match loaded {
            Ok(v) => v,
            Err(e) => {
                return Err(e);
            },
        };
        Ok(self.from_songs(&songs))
    }

    /// The stored songs credited to the given artist on the given release.
    pub fn list_by_artist_release(&self, artist: &str, release: &str) -> (r: CoreResult<Vec<Song>>)
        ensures
            match self.contents() {
                None => r == Err::<Vec<Song>, CoreError>(CoreError::StorageCorrupt),
                Some(s) => r matches Ok(v) && views_of(v@) == s.filter(
                    by_artist_release(artist@, release@),
                ),
            },
    {
        let loaded = self.sm.load();
        let songs = match loaded {
            Ok(v) => v,
            Err(e) => {
                return Err(e);
            },
        };
        Ok(filter_artist_release(&songs, artist, release))
    }

    /// The stored songs on the same release, by the same artist, as the
    /// given song; empty when the song lacks either tag.
    pub fn select_by_song(&self, song: &Song) -> (r: CoreResult<Vec<Song>>)
        ensures
            match self.contents() {
                None => r == Err::<Vec<Song>, CoreError>(CoreError::StorageCorrupt),
                Some(s) => r matches Ok(v) && (match (song@.artist, song@.release) {
                    (Some(a), Some(t)) => views_of(v@) == s.filter(by_artist_release(a, t)),
                    _ => views_of(v@) == Seq::<SongView>::empty(),
                }),
            },
    {
        let loaded = self.sm.load();
        let songs = match loaded {
            Ok(v) => v,
            Err(e) => {
                return Err(e);
            },
        };
        match (&song.artist, &song.release) {
            (Some(a), Some(t)) => Ok(filter_artist_release(&songs, a.as_str(), t.as_str())),
            _ => {
                let out: Vec<Song> = Vec::new();
                proof {
                    assert(views_of(out@) =~= Seq::<SongView>::empty());
                }
                Ok(out)
            },
        }
    }

    /// Removes every stored song on the given release by the given artist.
    pub fn remove_by_artist_release(&mut self, artist: &str, release: &str) -> (r: CoreResult<()>)
        ensures
            match old(self).contents() {
                None => r == Err::<(), CoreError>(CoreError::StorageCorrupt) && final(self).contents() == old(self).contents(),
                Some(s) => r is Ok && final(self).contents() == Some(
                    s.filter(not_on_release(artist@, release@)),
                ),
            },
    {
        let loaded = self.sm.load();
        let songs = match loaded {
            Ok(v) => v,
            Err(e) => {
                return Err(e);
            },
        };
        let ghost s = views_of(songs@);
        let mut kept: Vec<Song> = Vec::new();
        let mut j: usize = 0;
        proof {
            reveal(Seq::filter);
            assert(s.take(0) =~= Seq::<SongView>::empty());
            assert(views_of(kept@) =~= s.take(0).filter(not_on_release(artist@, release@)));
        }
        while j < songs.len()
            invariant
                j <= songs.len(),
                s == views_of(songs@),
                views_of(kept@) == s.take(j as int).filter(not_on_release(artist@, release@)),
            decreases songs.len() - j,
        {
            proof {
                reveal(Seq::filter);
                assert(s.take(j + 1).drop_last() =~= s.take(j as int));
                assert(s.take(j + 1).last() == s[j as int]);
            }
            let artist_hit = match &songs[j].artist {
                Some(a) => str_eq(a.as_str(), artist),
                None => false,
            };
            let release_hit = match &songs[j].release {
                Some(t) => str_eq(t.as_str(), release),
                None => false,
            };
            if !(artist_hit && release_hit) {
                let ghost prev = views_of(kept@);
                kept.push(songs[j].clone());
                proof {
                    assert(views_of(kept@) =~= prev.push(s[j as int]));
                }
            }
            j = j + 1;
        }
        proof {
            assert(s.take(songs@.len() as int) =~= s);
        }
        self.sm.save(&kept);
        Ok(())
    }

    /// Inserts the given songs with set semantics, as the song store does:
    /// a song whose path is already stored is left as it is.
    pub fn add_save(&mut self, songs: &Vec<Song>) -> (r: CoreResult<()>)
        ensures
            match old(self).contents() {
                None => r == Err::<(), CoreError>(CoreError::StorageCorrupt) && final(self).contents() == old(self).contents(),
                Some(s) => r is Ok && final(self).contents() == Some(
                    add_songs_spec(s, views_of(songs@)),
                ),
            },
    {
        let loaded = self.sm.load();
        let mut existing = match loaded {
            Ok(v) => v,
            Err(e) => {
                return Err(e);
            },
        };
        let ghost s0 = views_of(existing@);
        let mut j: usize = 0;
        proof {
            assert(views_of(songs@).take(0) =~= Seq::<SongView>::empty());
        }
        while j < songs.len()
            invariant
                j <= songs.len(),
                views_of(existing@) == add_songs_spec(s0, views_of(songs@).take(j as int)),
            decreases songs.len() - j,
        {
            let ghost cur = views_of(existing@);
            proof {
                crate::op::song::lemma_add_songs_push(
                    s0,
                    views_of(songs@).take(j as int),
                    views_of(songs@)[j as int],
                );
                assert(views_of(songs@).take(j as int).push(views_of(songs@)[j as int]) =~= views_of(
                    songs@,
                ).take(j + 1));
            }
            let mut m: usize = 0;
            let mut present = false;
            while m < existing.len()
                invariant
                    m <= existing.len(),
                    cur == views_of(existing@),
                    present == exists|q: int|
                        0 <= q < m && (#[trigger] cur[q]).path == views_of(songs@)[j as int].path,
                    j < songs@.len(),
                decreases existing.len() - m,
            {
                if !present {
                    let hit = existing[m].path.eq(&songs[j].path);
                    if hit {
                        proof {
                            assert(cur[m as int].path == views_of(songs@)[j as int].path);
                        }
                        present = true;
                    }
                }
                m = m + 1;
            }
            proof {
                if present {
                    assert(crate::model::has_key(
                        cur,
                        crate::entity::song::song_key(),
                        views_of(songs@)[j as int].path,
                    ));
                } else {
                    assert(!crate::model::has_key(
                        cur,
                        crate::entity::song::song_key(),
                        views_of(songs@)[j as int].path,
                    )) by {
                        if crate::model::has_key(
                            cur,
                            crate::entity::song::song_key(),
                            views_of(songs@)[j as int].path,
                        ) {
                            let q = choose|q: int|
                                0 <= q < cur.len() && crate::entity::song::song_key()(
                                    #[trigger] cur[q],
                                ) == views_of(songs@)[j as int].path;
                            assert(cur[q].path == views_of(songs@)[j as int].path);
                        }
                    }
                }
            }
            if !present {
                existing.push(songs[j].clone());
                proof {
                    assert(views_of(existing@) =~= cur.push(views_of(songs@)[j as int]));
                }
            }
            j = j + 1;
        }
        proof {
            assert(views_of(songs@).take(songs@.len() as int) =~= views_of(songs@));
        }
        self.sm.save(&existing);
        Ok(())
    }
}

/// Keeps the songs credited to the given artist on the given release.
fn filter_artist_release(songs: &Vec<Song>, artist: &str, release: &str) -> (r: Vec<Song>)
    ensures
        views_of(r@) == views_of(songs@).filter(by_artist_release(artist@, release@)),
{
    let ghost s = views_of(songs@);
    let mut out: Vec<Song> = Vec::new();
    let mut j: usize = 0;
    proof {
        reveal(Seq::filter);
        assert(s.take(0) =~= Seq::<SongView>::empty());
        assert(views_of(out@) =~= s.take(0).filter(by_artist_release(artist@, release@)));
    }
    while j < songs.len()
        invariant
            j <= songs.len(),
            s == views_of(songs@),
            views_of(out@) == s.take(j as int).filter(by_artist_release(artist@, release@)),
        decreases songs.len() - j,
    {
        proof {
            reveal(Seq::filter);
            assert(s.take(j + 1).drop_last() =~= s.take(j as int));
            assert(s.take(j + 1).last() == s[j as int]);
        }
        let artist_hit = match &songs[j].artist {
            Some(a) => str_eq(a.as_str(), artist),
            None => false,
        };
        let release_hit = match &songs[j].release {
            Some(t) => str_eq(t.as_str(), release),
            None => false,
        };
        if artist_hit && release_hit {
            let ghost prev = views_of(out@);
            out.push(songs[j].clone());
            proof {
                assert(views_of(out@) =~= prev.push(s[j as int]));
            }
        }
        j = j + 1;
    }
    proof {
        assert(s.take(songs@.len() as int) =~= s);
    }
    out
}

} // verus!
