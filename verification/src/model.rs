//! Shared glue between executable data and its mathematical model: mapping
//! a sequence of values to their views, and duplication that provably
//! preserves the view.

use vstd::prelude::*;

verus! {

/// The views of every element of a sequence.
pub open spec fn views_of<T: View>(s: Seq<T>) -> Seq<T::V> {
    s.map_values(|x: T| x@)
}

/// Indexing the views of a sequence is viewing the indexed element.
pub broadcast proof fn lemma_views_of_index<T: View>(s: Seq<T>, i: int)
    requires
        0 <= i < s.len(),
    ensures
        #[trigger] views_of(s)[i] == s[i]@,
{
}

/// Mapping to views keeps the length.
pub broadcast proof fn lemma_views_of_len<T: View>(s: Seq<T>)
    ensures
        #[trigger] views_of(s).len() == s.len(),
{
}

/// A value that can be duplicated without changing its view. The entity
/// types implement this so that loading a stored collection hands back an
/// observably identical copy.
pub trait Dup: View + Sized {
    /// Produces a copy with the same view.
    fn dup(&self) -> (r: Self)
        ensures
            r@ == self@,
    ;
}

/// Duplicates every element, preserving the sequence of views.
pub fn dup_vec<T: Dup>(v: &Vec<T>) -> (r: Vec<T>)
    ensures
        views_of(r@) == views_of(v@),
{
    let mut r: Vec<T> = Vec::new();
    let mut i: usize = 0;
    while i < v.len()
        invariant
            i <= v.len(),
            r@.len() == i,
            forall|j: int| 0 <= j < i ==> r@[j]@ == #[trigger] v@[j]@,
        decreases v.len() - i,
    {
        r.push(v[i].dup());
        i = i + 1;
    }
    proof {
        assert(views_of(r@) =~= views_of(v@));
    }
    r
}

/// Duplicates a vector of strings; the string views carry over exactly.
pub fn dup_strings(v: &Vec<String>) -> (r: Vec<String>)
    ensures
        r@ == v@,
{
    let mut r: Vec<String> = Vec::new();
    let mut i: usize = 0;
    while i < v.len()
        invariant
            i <= v.len(),
            r@.len() == i,
            forall|j: int| 0 <= j < i ==> r@[j] == #[trigger] v@[j],
        decreases v.len() - i,
    {
        r.push(v[i].clone());
        i = i + 1;
    }
    proof {
        assert(r@ =~= v@);
    }
    r
}

/// Duplicates an optional string exactly.
pub fn dup_opt_string(o: &Option<String>) -> (r: Option<String>)
    ensures
        r == *o,
{
    match o {
        Some(s) => Some(s.clone()),
        None => None,
    }
}

/// The predicate holding of the paths that are not in the exclusion list.
pub open spec fn not_in(excl: Seq<Seq<char>>) -> spec_fn(Seq<char>) -> bool {
    |p: Seq<char>| !excl.contains(p)
}

/// The identity key on paths, for deduplication by whole value.
pub open spec fn str_id() -> spec_fn(Seq<char>) -> Seq<char> {
    |p: Seq<char>| p
}

/// The sequence with later duplicates (by the given key, beyond those
/// already seen) dropped, keeping each key's first occurrence.
pub open spec fn dedup_by<V>(s: Seq<V>, key: spec_fn(V) -> Seq<char>, seen: Set<Seq<char>>) -> Seq<
    V,
>
    decreases s.len(),
{
    if s.len() == 0 {
        Seq::empty()
    } else if seen.contains(key(s[0])) {
        dedup_by(s.skip(1), key, seen)
    } else {
        seq![s[0]] + dedup_by(s.skip(1), key, seen.insert(key(s[0])))
    }
}

/// Insertion into a descending-sorted sequence, keeping it descending.
pub open spec fn insert_desc(s: Seq<usize>, x: usize) -> Seq<usize>
    decreases s.len(),
{
    if s.len() == 0 {
        seq![x]
    } else if s[0] >= x {
        seq![s[0]] + insert_desc(s.skip(1), x)
    } else {
        seq![x] + s
    }
}

/// Descending insertion sort.
pub open spec fn sort_desc(s: Seq<usize>) -> Seq<usize>
    decreases s.len(),
{
    if s.len() == 0 {
        Seq::empty()
    } else {
        insert_desc(sort_desc(s.drop_last()), s.last())
    }
}

/// Whether some element of the sequence has the given key.
pub open spec fn has_key<V>(s: Seq<V>, key: spec_fn(V) -> Seq<char>, n: Seq<char>) -> bool {
    exists|k: int| 0 <= k < s.len() && key(#[trigger] s[k]) == n
}

/// No two elements share a key.
pub open spec fn unique_keys<V>(s: Seq<V>, key: spec_fn(V) -> Seq<char>) -> bool {
    forall|i: int, j: int|
        0 <= i < j < s.len() ==> key(#[trigger] s[i]) != key(#[trigger] s[j])
}

/// The position of the first element with the given key.
pub open spec fn first_key_index<V>(s: Seq<V>, key: spec_fn(V) -> Seq<char>, n: Seq<char>) -> int
    decreases s.len(),
{
    if s.len() == 0 {
        0
    } else if key(s[0]) == n {
        0
    } else {
        1 + first_key_index(s.skip(1), key, n)
    }
}

/// Removing the elements with the listed keys one after another, each by
/// its first occurrence; nothing if one key is absent when its turn comes.
pub open spec fn remove_keys<V>(
    s: Seq<V>,
    key: spec_fn(V) -> Seq<char>,
    names: Seq<Seq<char>>,
) -> Option<Seq<V>>
    decreases names.len(),
{
    if names.len() == 0 {
        Some(s)
    } else if has_key(s, key, names[0]) {
        remove_keys(s.remove(first_key_index(s, key, names[0])), key, names.skip(1))
    } else {
        None
    }
}

pub proof fn lemma_first_key_index<V>(s: Seq<V>, key: spec_fn(V) -> Seq<char>, n: Seq<char>)
    requires
        has_key(s, key, n),
    ensures
        0 <= first_key_index(s, key, n) < s.len(),
        key(s[first_key_index(s, key, n)]) == n,
        forall|j: int| 0 <= j < first_key_index(s, key, n) ==> key(#[trigger] s[j]) != n,
    decreases s.len(),
{
    if s.len() > 0 && key(s[0]) != n {
        assert(has_key(s.skip(1), key, n)) by {
            let k = choose|k: int| 0 <= k < s.len() && key(#[trigger] s[k]) == n;
            assert(key(s.skip(1)[k - 1]) == n);
        }
        lemma_first_key_index(s.skip(1), key, n);
        assert forall|j: int| 0 <= j < first_key_index(s, key, n) implies key(#[trigger] s[j])
            != n by {
            if j > 0 {
                assert(key(s.skip(1)[j - 1]) != n);
            }
        }
    }
}

pub proof fn lemma_remove_keys_push<V>(
    s: Seq<V>,
    key: spec_fn(V) -> Seq<char>,
    names: Seq<Seq<char>>,
    n: Seq<char>,
)
    ensures
        remove_keys(s, key, names.push(n)) == (match remove_keys(s, key, names) {
            Some(t) => if has_key(t, key, n) {
                Some(t.remove(first_key_index(t, key, n)))
            } else {
                None::<Seq<V>>
            },
            None => None::<Seq<V>>,
        }),
    decreases names.len(),
{
    if names.len() == 0 {
        assert(names.push(n)[0] == n);
        assert(names.push(n).skip(1) =~= Seq::<Seq<char>>::empty());
        assert(remove_keys(s, key, names) == Some(s));
        if has_key(s, key, n) {
            assert(remove_keys(s, key, names.push(n)) == remove_keys(
                s.remove(first_key_index(s, key, n)),
                key,
                names.push(n).skip(1),
            ));
            assert(remove_keys(
                s.remove(first_key_index(s, key, n)),
                key,
                Seq::<Seq<char>>::empty(),
            ) == Some(s.remove(first_key_index(s, key, n))));
        } else {
            assert(remove_keys(s, key, names.push(n)) is None);
        }
    } else {
        assert(names.push(n)[0] == names[0]);
        assert(names.push(n).skip(1) =~= names.skip(1).push(n));
        if has_key(s, key, names[0]) {
            let s1 = s.remove(first_key_index(s, key, names[0]));
            lemma_remove_keys_push(s1, key, names.skip(1), n);
            assert(remove_keys(s, key, names.push(n)) == remove_keys(
                s1,
                key,
                names.skip(1).push(n),
            ));
            assert(remove_keys(s, key, names) == remove_keys(s1, key, names.skip(1)));
        } else {
            assert(remove_keys(s, key, names.push(n)) is None);
            assert(remove_keys(s, key, names) is None);
        }
    }
}

pub proof fn lemma_remove_keys_stays_none<V>(
    s: Seq<V>,
    key: spec_fn(V) -> Seq<char>,
    names: Seq<Seq<char>>,
    k: int,
)
    requires
        1 <= k <= names.len(),
        remove_keys(s, key, names.take(k)) is None,
    ensures
        remove_keys(s, key, names) is None,
    decreases names.len(),
{
    assert(names.take(k)[0] == names[0]);
    if has_key(s, key, names[0]) {
        assert(names.take(k).skip(1) =~= names.skip(1).take(k - 1));
        if k > 1 {
            lemma_remove_keys_stays_none(
                s.remove(first_key_index(s, key, names[0])),
                key,
                names.skip(1),
                k - 1,
            );
        }
    }
}

/// Removing the listed positions one after another, each against the
/// then-current sequence; nothing if one of them is out of range.
pub open spec fn remove_at_each<V>(s: Seq<V>, idxs: Seq<usize>) -> Option<Seq<V>>
    decreases idxs.len(),
{
    if idxs.len() == 0 {
        Some(s)
    } else if (idxs[0] as int) < s.len() {
        remove_at_each(s.remove(idxs[0] as int), idxs.skip(1))
    } else {
        None
    }
}

pub proof fn lemma_remove_at_each_push<V>(s: Seq<V>, idxs: Seq<usize>, x: usize)
    ensures
        remove_at_each(s, idxs.push(x)) == (match remove_at_each(s, idxs) {
            Some(t) => if (x as int) < t.len() {
                Some(t.remove(x as int))
            } else {
                None::<Seq<V>>
            },
            None => None::<Seq<V>>,
        }),
    decreases idxs.len(),
{
    if idxs.len() == 0 {
        assert(idxs.push(x)[0] == x);
        assert(idxs.push(x).skip(1) =~= Seq::<usize>::empty());
        if (x as int) < s.len() {
            assert(remove_at_each(s.remove(x as int), Seq::<usize>::empty()) == Some(
                s.remove(x as int),
            ));
        }
    } else {
        assert(idxs.push(x)[0] == idxs[0]);
        assert(idxs.push(x).skip(1) =~= idxs.skip(1).push(x));
        if (idxs[0] as int) < s.len() {
            lemma_remove_at_each_push(s.remove(idxs[0] as int), idxs.skip(1), x);
        }
    }
}

pub proof fn lemma_remove_at_each_stays_none<V>(s: Seq<V>, idxs: Seq<usize>, k: int)
    requires
        1 <= k <= idxs.len(),
        remove_at_each(s, idxs.take(k)) is None,
    ensures
        remove_at_each(s, idxs) is None,
    decreases idxs.len(),
{
    assert(idxs.take(k)[0] == idxs[0]);
    if (idxs[0] as int) < s.len() {
        assert(idxs.take(k).skip(1) =~= idxs.skip(1).take(k - 1));
        if k > 1 {
            lemma_remove_at_each_stays_none(s.remove(idxs[0] as int), idxs.skip(1), k - 1);
        }
    }
}

proof fn lemma_insert_desc_at(s: Seq<usize>, x: usize, j: int)
    requires
        0 <= j <= s.len(),
        forall|i: int| 0 <= i < j ==> s[i] >= x,
        j == s.len() || s[j as int] < x,
    ensures
        insert_desc(s, x) == s.subrange(0, j) + seq![x] + s.skip(j),
    decreases j,
{
    if j == 0 {
        if s.len() == 0 {
            assert(insert_desc(s, x) =~= s.subrange(0, 0) + seq![x] + s.skip(0));
        } else {
            assert(insert_desc(s, x) =~= s.subrange(0, 0) + seq![x] + s.skip(0));
        }
    } else {
        lemma_insert_desc_at(s.skip(1), x, j - 1);
        assert(s.skip(1).subrange(0, j - 1) =~= s.subrange(1, j));
        assert(s.skip(1).skip(j - 1) =~= s.skip(j));
        assert(seq![s[0]] + (s.subrange(1, j) + seq![x] + s.skip(j)) =~= s.subrange(0, j)
            + seq![x] + s.skip(j));
    }
}

/// Sorts a list of positions in descending order.
pub fn sorted_desc(v: &Vec<usize>) -> (r: Vec<usize>)
    ensures
        r@ == sort_desc(v@),
{
    let mut r: Vec<usize> = Vec::new();
    let mut i: usize = 0;
    proof {
        assert(v@.subrange(0, 0) =~= Seq::<usize>::empty());
    }
    while i < v.len()
        invariant
            i <= v.len(),
            r@ == sort_desc(v@.subrange(0, i as int)),
        decreases v.len() - i,
    {
        let x = v[i];
        let mut j: usize = 0;
        while j < r.len() && r[j] >= x
            invariant
                j <= r.len(),
                forall|k: int| 0 <= k < j ==> r@[k] >= x,
            decreases r.len() - j,
        {
            j = j + 1;
        }
        proof {
            lemma_insert_desc_at(r@, x, j as int);
            assert(v@.subrange(0, i + 1).drop_last() =~= v@.subrange(0, i as int));
            assert(v@.subrange(0, i + 1).last() == v@[i as int]);
        }
        r.insert(j, x);
        proof {
            assert(r@ =~= sort_desc(v@.subrange(0, i as int)).subrange(0, j as int) + seq![x]
                + sort_desc(v@.subrange(0, i as int)).skip(j as int));
        }
        i = i + 1;
    }
    proof {
        assert(v@.subrange(0, v@.len() as int) =~= v@);
    }
    r
}

/// Tests whether a list of strings holds one with the given view.
pub fn contains_string(v: &Vec<String>, x: &String) -> (r: bool)
    ensures
        r == v@.map_values(|s: String| s@).contains(x@),
{
    let mut i: usize = 0;
    while i < v.len()
        invariant
            i <= v.len(),
            forall|j: int| 0 <= j < i ==> (#[trigger] v@[j])@ != x@,
        decreases v.len() - i,
    {
        if x.eq(&v[i]) {
            proof {
                assert(v@.map_values(|s: String| s@)[i as int] == x@);
            }
            return true;
        }
        i = i + 1;
    }
    proof {
        let mv = v@.map_values(|s: String| s@);
        assert forall|j: int| 0 <= j < mv.len() implies #[trigger] mv[j] != x@ by {
            assert(mv[j] == v@[j]@);
        }
    }
    false
}

} // verus!
