//! Pure path logic on plain strings: extension lookup against the audio
//! allow-list, path joining, prefix (ancestry) tests, and the content hash
//! that names cache artifacts.

use vstd::prelude::*;
use crate::text::{eq_ignore_case, str_eq_ignore_case};

verus! {

/// Both separators are recognised so that paths recorded on either kind of
/// system compare the same way.
pub open spec fn is_sep(c: char) -> bool {
    c == '/' || c == '\\'
}

/// The extension of the final path component: the characters after its last
/// dot, provided that dot is neither the component's first character nor
/// absent.
pub open spec fn ext_of(p: Seq<char>) -> Option<Seq<char>>
    decreases p.len(),
{
    if p.len() == 0 {
        None
    } else if is_sep(p[p.len() - 1]) {
        None
    } else if p[p.len() - 1] == '.' {
        if p.len() >= 2 && !is_sep(p[p.len() - 2]) {
            Some(Seq::empty())
        } else {
            None
        }
    } else {
        match ext_of(p.drop_last()) {
            Some(e) => Some(e.push(p[p.len() - 1])),
            None => None,
        }
    }
}

proof fn lemma_ext_of_at(p: Seq<char>, k: int)
    requires
        1 <= k < p.len(),
        p[k] == '.',
        !is_sep(p[k - 1]),
        forall|j: int| k < j < p.len() ==> p[j] != '.' && !is_sep(#[trigger] p[j]),
    ensures
        ext_of(p) == Some(p.subrange(k + 1, p.len() as int)),
    decreases p.len(),
{
    if k == p.len() - 1 {
        assert(p.subrange(k + 1, p.len() as int) =~= Seq::empty());
    } else {
        lemma_ext_of_at(p.drop_last(), k);
        assert(p.drop_last().subrange(k + 1, p.len() - 1) =~= p.subrange(k + 1, p.len() - 1));
        assert(p.subrange(k + 1, p.len() - 1).push(p[p.len() - 1]) =~= p.subrange(
            k + 1,
            p.len() as int,
        ));
    }
}

proof fn lemma_ext_of_none(p: Seq<char>, m: int)
    requires
        0 <= m <= p.len(),
        forall|j: int| m <= j < p.len() ==> p[j] != '.' && !is_sep(#[trigger] p[j]),
        m == 0 || is_sep(p[m - 1]) || (p[m - 1] == '.' && (m == 1 || is_sep(p[m - 2]))),
    ensures
        ext_of(p) is None,
    decreases p.len(),
{
    if m < p.len() {
        lemma_ext_of_none(p.drop_last(), m);
    }
}

/// Returns the final component's extension, as `ext_of` describes it.
pub fn extension_of(path: &str) -> (r: Option<String>)
    ensures
        match r {
            Some(e) => ext_of(path@) == Some(e@),
            None => ext_of(path@) is None,
        },
{
    let len: usize = path.unicode_len();
    let mut i: usize = len;
    loop
        invariant
            0 <= i <= len,
            len == path@.len(),
            forall|j: int| i <= j < len ==> path@[j] != '.' && !is_sep(#[trigger] path@[j]),
        decreases i,
    {
        if i == 0 {
            proof {
                lemma_ext_of_none(path@, 0);
            }
            return None;
        }
        let c = path.get_char(i - 1);
        if c == '/' || c == '\\' {
            proof {
                lemma_ext_of_none(path@, i as int);
            }
            return None;
        }
        if c == '.' {
            if i >= 2 {
                let prev = path.get_char(i - 2);
                if !(prev == '/' || prev == '\\') {
                    proof {
                        lemma_ext_of_at(path@, i - 1);
                    }
                    let e = path.substring_char(i, len);
                    return Some(e.to_owned());
                }
            }
            proof {
                lemma_ext_of_none(path@, i as int);
            }
            return None;
        }
        i = i - 1;
    }
}

/// Whether the path carries one of the allowed audio extensions, compared
/// without regard to ASCII case.
pub open spec fn has_audio_ext(p: Seq<char>, exts: Seq<Seq<char>>) -> bool {
    match ext_of(p) {
        Some(e) => exists|k: int| 0 <= k < exts.len() && eq_ignore_case(e, #[trigger] exts[k]),
        None => false,
    }
}

/// Tests a path against the audio-extension allow-list, ignoring ASCII case.
pub fn is_audio_path(path: &str, exts: &Vec<String>) -> (r: bool)
    ensures
        r == has_audio_ext(path@, exts.deep_view()),
{
    let ext = extension_of(path);
    match ext {
        None => false,
        Some(e) => {
            let mut k: usize = 0;
            while k < exts.len()
                invariant
                    k <= exts.len(),
                    ext_of(path@) == Some(e@),
                    forall|j: int| 0 <= j < k ==> !eq_ignore_case(e@, #[trigger] exts.deep_view()[j]),
                decreases exts.len() - k,
            {
                let hit = str_eq_ignore_case(e.as_str(), exts[k].as_str());
                proof {
                    assert(exts.deep_view()[k as int] == exts@[k as int]@);
                }
                if hit {
                    return true;
                }
                k = k + 1;
            }
            false
        },
    }
}

/// Joining a base directory and a relative part with a single separator.
pub open spec fn join_spec(base: Seq<char>, rel: Seq<char>) -> Seq<char> {
    if base.len() == 0 {
        rel
    } else if is_sep(base[base.len() - 1]) {
        base + rel
    } else {
        base.push('/') + rel
    }
}

/// Joins a base directory and a relative part with a single separator.
pub fn join_path(base: &str, rel: &str) -> (r: String)
    ensures
        r@ == join_spec(base@, rel@),
{
    let mut r = String::new();
    r.push_str(base);
    let len: usize = base.unicode_len();
    if len > 0 {
        let last = base.get_char(len - 1);
        if !(last == '/' || last == '\\') {
            r.push('/');
        }
    }
    r.push_str(rel);
    proof {
        assert(Seq::<char>::empty() + base@ =~= base@);
        if base@.len() == 0 {
            assert(base@ + rel@ =~= rel@);
        }
    }
    r
}

/// Whether `p` lies at or under the directory `root`: either the same path,
/// or `root` followed by a separator and more.
pub open spec fn is_under(p: Seq<char>, root: Seq<char>) -> bool {
    ||| p == root
    ||| (p.len() > root.len() && p.subrange(0, root.len() as int) == root && (root.len() == 0
        || is_sep(root[root.len() - 1]) || is_sep(p[root.len() as int])))
}

/// Tests whether `p` lies at or under the directory `root`.
pub fn path_is_under(p: &str, root: &str) -> (r: bool)
    ensures
        r == is_under(p@, root@),
{
    let p_len: usize = p.unicode_len();
    let root_len: usize = root.unicode_len();
    if p_len < root_len {
        proof {
            assert(p@ != root@);
        }
        return false;
    }
    let mut i: usize = 0;
    while i < root_len
        invariant
            i <= root_len <= p_len,
            p_len == p@.len(),
            root_len == root@.len(),
            forall|j: int| 0 <= j < i ==> p@[j] == root@[j],
        decreases root_len - i,
    {
        if p.get_char(i) != root.get_char(i) {
            proof {
                assert(p@ != root@);
                assert(p@.subrange(0, root@.len() as int) != root@);
            }
            return false;
        }
        i = i + 1;
    }
    if p_len == root_len {
        proof {
            assert(p@ =~= root@);
        }
        return true;
    }
    proof {
        assert(p@.subrange(0, root@.len() as int) =~= root@);
    }
    if root_len == 0 {
        return true;
    }
    let last = root.get_char(root_len - 1);
    if last == '/' || last == '\\' {
        return true;
    }
    let c = p.get_char(root_len);
    c == '/' || c == '\\'
}

/// The path with its extension replaced (keeping the dot), or with a dot
/// and the extension appended when it has none.
pub open spec fn with_ext(p: Seq<char>, e: Seq<char>) -> Seq<char> {
    match ext_of(p) {
        Some(x) => p.take(p.len() - x.len()) + e,
        None => p.push('.') + e,
    }
}

/// Replaces a path's extension, as `with_ext` describes.
pub fn replace_extension(path: &str, ext: &str) -> (r: String)
    ensures
        r@ == with_ext(path@, ext@),
{
    let len: usize = path.unicode_len();
    let found = extension_of(path);
    match found {
        Some(e) => {
            let e_len: usize = e.as_str().unicode_len();
            proof {
                lemma_ext_len(path@);
            }
            let stem = path.substring_char(0, len - e_len);
            let mut r = String::new();
            r.push_str(stem);
            r.push_str(ext);
            proof {
                assert(path@.subrange(0, len - e_len) =~= path@.take(path@.len() - e@.len()));
            }
            r
        },
        None => {
            let mut r = String::new();
            r.push_str(path);
            r.push('.');
            r.push_str(ext);
            proof {
                assert(path@.push('.') + ext@ =~= (path@ + seq!['.']) + ext@);
            }
            r
        },
    }
}

/// An extension is shorter than its path.
proof fn lemma_ext_len(p: Seq<char>)
    ensures
        ext_of(p) matches Some(x) ==> x.len() < p.len(),
    decreases p.len(),
{
    if p.len() > 0 && !is_sep(p[p.len() - 1]) && p[p.len() - 1] != '.' {
        lemma_ext_len(p.drop_last());
    }
}

/// The 64-bit FNV-1a offset basis.
pub open spec fn fnv_basis() -> u64 {
    0xcbf29ce484222325u64
}

/// The 64-bit FNV-1a prime.
pub open spec fn fnv_prime() -> u64 {
    0x100000001b3u64
}

/// One FNV-1a step: fold a character's code point into the running hash.
pub open spec fn fnv_step(h: u64, c: char) -> u64 {
    mul_wrap(h ^ (c as u64), fnv_prime())
}

/// Wrapping 64-bit multiplication.
pub open spec fn mul_wrap(a: u64, b: u64) -> u64 {
    ((a as nat) * (b as nat) % 0x1_0000_0000_0000_0000) as u64
}

/// The FNV-1a hash of a character sequence.
pub open spec fn fnv1a(s: Seq<char>) -> u64
    decreases s.len(),
{
    if s.len() == 0 {
        fnv_basis()
    } else {
        fnv_step(fnv1a(s.drop_last()), s[s.len() - 1])
    }
}

/// The hexadecimal digit for a value below 16.
pub open spec fn hex_digit(n: u64) -> char {
    if n == 0 {
        '0'
    } else if n == 1 {
        '1'
    } else if n == 2 {
        '2'
    } else if n == 3 {
        '3'
    } else if n == 4 {
        '4'
    } else if n == 5 {
        '5'
    } else if n == 6 {
        '6'
    } else if n == 7 {
        '7'
    } else if n == 8 {
        '8'
    } else if n == 9 {
        '9'
    } else if n == 10 {
        'a'
    } else if n == 11 {
        'b'
    } else if n == 12 {
        'c'
    } else if n == 13 {
        'd'
    } else if n == 14 {
        'e'
    } else {
        'f'
    }
}

/// A 64-bit value as 16 fixed-width lower-case hexadecimal digits.
pub open spec fn hex16(n: u64) -> Seq<char> {
    Seq::new(16, |i: int| hex_digit((n >> ((15 - i) * 4) as u64) & 0xf))
}

/// The deterministic content hash that names a song's cache artifacts:
/// the FNV-1a hash of its path, in fixed-width hexadecimal.
pub open spec fn path_hash_spec(p: Seq<char>) -> Seq<char> {
    hex16(fnv1a(p))
}

fn hex_digit_exec(n: u64) -> (r: char)
    requires
        n < 16,
    ensures
        r == hex_digit(n),
{
    if n == 0 {
        '0'
    } else if n == 1 {
        '1'
    } else if n == 2 {
        '2'
    } else if n == 3 {
        '3'
    } else if n == 4 {
        '4'
    } else if n == 5 {
        '5'
    } else if n == 6 {
        '6'
    } else if n == 7 {
        '7'
    } else if n == 8 {
        '8'
    } else if n == 9 {
        '9'
    } else if n == 10 {
        'a'
    } else if n == 11 {
        'b'
    } else if n == 12 {
        'c'
    } else if n == 13 {
        'd'
    } else if n == 14 {
        'e'
    } else {
        'f'
    }
}

/// Hashes a path into the fixed-width hexadecimal name used for its cache
/// artifacts.
pub fn get_path_hash(path: &String) -> (r: String)
    ensures
        r@ == path_hash_spec(path@),
{
    let s = path.as_str();
    let len: usize = s.unicode_len();
    let mut h: u64 = 0xcbf29ce484222325u64;
    let mut i: usize = 0;
    proof {
        assert(s@.subrange(0, 0) =~= Seq::<char>::empty());
    }
    while i < len
        invariant
            i <= len,
            len == s@.len(),
            s@ == path@,
            h == fnv1a(path@.subrange(0, i as int)),
        decreases len - i,
    {
        let c = s.get_char(i);
        h = (h ^ (c as u64)).wrapping_mul(0x100000001b3u64);
        proof {
            assert(path@.subrange(0, i + 1).drop_last() =~= path@.subrange(0, i as int));
        }
        i = i + 1;
    }
    proof {
        assert(path@.subrange(0, len as int) =~= path@);
    }
    let mut r = String::new();
    let mut k: usize = 0;
    while k < 16
        invariant
            k <= 16,
            h == fnv1a(path@),
            r@ =~= hex16(h).subrange(0, k as int),
        decreases 16 - k,
    {
        let shift: u64 = ((15 - k) * 4) as u64;
        let d = (h >> shift) & 0xf;
        proof {
            assert(d < 16) by (bit_vector)
                requires
                    d == (h >> shift) & 0xf,
            ;
        }
        r.push(hex_digit_exec(d));
        proof {
            assert(hex16(h).subrange(0, k + 1) =~= hex16(h).subrange(0, k as int).push(
                hex16(h)[k as int],
            ));
        }
        k = k + 1;
    }
    proof {
        assert(hex16(h).subrange(0, 16) =~= hex16(h));
    }
    r
}

/// Whether a path begins with the Windows verbatim prefix, the four
/// characters that normalisation may strip.
pub open spec fn has_verbatim_prefix(p: Seq<char>) -> bool {
    p.len() >= 4 && p[0] == '\\' && p[1] == '\\' && p[2] == '?' && p[3] == '\\'
}

/// Relies on dunce::simplified: only a path carrying the Windows verbatim
/// prefix can come back changed, and then only with those four characters
/// stripped, on hosts where stripping is safe; every other path comes back
/// as it went in.
#[verifier::external_body]
fn simplify_path(p: &String) -> (r: String)
    ensures
        !has_verbatim_prefix(p@) ==> r@ == p@,
        has_verbatim_prefix(p@) ==> r@ == p@ || r@ == p@.skip(4),
{
    dunce::simplified(std::path::Path::new(p)).to_string_lossy().into_owned()
}

/// Resolves a store-relative path against the storage base directory and
/// normalises it for the host filesystem: the joined path, which only
/// loses a leading Windows verbatim prefix where it carries one.
pub fn resolve_resource_path(base: &String, rel: &String) -> (r: String)
    ensures
        !has_verbatim_prefix(join_spec(base@, rel@)) ==> r@ == join_spec(base@, rel@),
        has_verbatim_prefix(join_spec(base@, rel@)) ==> r@ == join_spec(base@, rel@) || r@
            == join_spec(base@, rel@).skip(4),
{
    let joined = join_path(base.as_str(), rel.as_str());
    simplify_path(&joined)
}

} // verus!
