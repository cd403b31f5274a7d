use vstd::prelude::*;

use crate::text::{chars_of, matches_at, occurs_at, string_of};

verus! {

/// Why an addon query was refused.
#[derive(Clone, Debug, PartialEq, Eq)]
pub enum QueryError {
    /// The query is a URL of a site other than the catalog's.
    InvalidPattern(String),
}

/// The first position at or after `i` where `n` occurs in `h`.
pub open spec fn first_occ_from(h: Seq<char>, n: Seq<char>, i: int) -> Option<int>
    decreases h.len() + 1 - i,
{
    if i < 0 || i > h.len() {
        None
    } else if occurs_at(h, n, i) {
        Some(i)
    } else {
        first_occ_from(h, n, i + 1)
    }
}

/// `str::split_once`: the parts before and after the first occurrence of `n`.
pub open spec fn split_once(h: Seq<char>, n: Seq<char>) -> Option<(Seq<char>, Seq<char>)> {
    match first_occ_from(h, n, 0) {
        Some(i) => Some((h.subrange(0, i), h.subrange(i + n.len(), h.len() as int))),
        None => None,
    }
}

/// `s` without the prefix `p`, where it starts with it.
pub open spec fn strip_prefix(s: Seq<char>, p: Seq<char>) -> Option<Seq<char>> {
    if occurs_at(s, p, 0) { Some(s.subrange(p.len() as int, s.len() as int)) } else { None }
}

/// `s` without the suffix `p`, where it ends with it.
pub open spec fn strip_suffix(s: Seq<char>, p: Seq<char>) -> Option<Seq<char>> {
    if p.len() <= s.len() && occurs_at(s, p, s.len() - p.len()) {
        Some(s.subrange(0, s.len() - p.len()))
    } else {
        None
    }
}

pub open spec fn or_same(o: Option<Seq<char>>, s: Seq<char>) -> Seq<char> {
    match o {
        Some(x) => x,
        None => s,
    }
}

/// `s` without any leading `c`.
pub open spec fn trim_start_char(s: Seq<char>, c: char) -> Seq<char>
    decreases s.len(),
{
    if s.len() > 0 && s[0] == c { trim_start_char(s.drop_first(), c) } else { s }
}

/// `s` without any trailing `c`.
pub open spec fn trim_end_char(s: Seq<char>, c: char) -> Seq<char>
    decreases s.len(),
{
    if s.len() > 0 && s.last() == c { trim_end_char(s.drop_last(), c) } else { s }
}

/// The version part of a path `slug/...`: a leading `files/all`, `files` or `download` and
/// slashes are dropped, and what follows the next slash.
pub open spec fn path_version(v: Seq<char>) -> Seq<char> {
    let v1 = or_same(strip_prefix(v, "files/all"@), v);
    let v2 = or_same(strip_prefix(v1, "files"@), v1);
    let v3 = or_same(strip_prefix(v2, "download"@), v2);
    let v4 = trim_start_char(v3, '/');
    match split_once(v4, "/"@) {
        Some(p) => p.0,
        None => v4,
    }
}

/// The slug and the version named by a query, before trailing slashes and path suffixes are
/// removed from the slug.
pub open spec fn split_query(s: Seq<char>) -> (Seq<char>, Option<Seq<char>>) {
    match split_once(s, "/"@) {
        Some(p) => (p.0, if path_version(p.1).len() > 0 { Some(path_version(p.1)) } else { None }),
        None => match split_once(s, "="@) {
            Some(p) => (p.0, Some(p.1)),
            None => match split_once(s, "@"@) {
                Some(p) => (p.0, Some(p.1)),
                None => (s, None),
            },
        },
    }
}

/// The slug with trailing slashes and a trailing `/files/all`, `/files` or `/download` removed.
pub open spec fn clean_slug(s: Seq<char>) -> Seq<char> {
    let s1 = trim_end_char(s, '/');
    let s2 = or_same(strip_suffix(s1, "/files/all"@), s1);
    let s3 = or_same(strip_suffix(s2, "/files"@), s2);
    or_same(strip_suffix(s3, "/download"@), s3)
}

/// The query with a `?...` tail and a catalog URL prefix removed.
pub open spec fn query_core(s: Seq<char>) -> Seq<char> {
    let s1 = match split_once(s, "?"@) { Some(p) => p.0, None => s };
    let s2 = match split_once(s1, "curseforge.com/minecraft/mc-mods/"@) { Some(p) => p.1, None => s1 };
    match split_once(s2, "curseforge.com/projects/"@) { Some(p) => p.1, None => s2 }
}

/// What a query decodes to: a slug and maybe a version; `None` for a URL of another site.
pub open spec fn decode_spec(s: Seq<char>) -> Option<(Seq<char>, Option<Seq<char>>)> {
    let c = query_core(s);
    if first_occ_from(c, "://"@, 0) is Some {
        None
    } else {
        let q = split_query(c);
        Some((clean_slug(q.0), match q.1 { Some(v) => Some(trim_end_char(v, '/')), None => None }))
    }
}

pub(crate) fn find_first(h: &Vec<char>, n: &Vec<char>) -> (r: Option<usize>)
    ensures
        match r {
            Some(i) => first_occ_from(h@, n@, 0) == Some(i as int),
            None => first_occ_from(h@, n@, 0) is None,
        },
{
    let mut i: usize = 0;
    while i <= h.len()
        invariant
            i <= h@.len() + 1,
            first_occ_from(h@, n@, 0) == first_occ_from(h@, n@, i as int),
        decreases h@.len() + 1 - i,
    {
        if matches_at(h.as_slice(), n.as_slice(), i) {
            return Some(i);
        }
        if i == h.len() {
            assert(first_occ_from(h@, n@, i as int + 1) is None);
            return None;
        }
        i = i + 1;
    }
    None
}

pub(crate) fn chars_between_pub(h: &Vec<char>, a: usize, b: usize) -> (r: Vec<char>)
    requires
        a <= b <= h@.len(),
    ensures
        r@ == h@.subrange(a as int, b as int),
{
    chars_between(h, a, b)
}

fn chars_between(h: &Vec<char>, a: usize, b: usize) -> (r: Vec<char>)
    requires
        a <= b <= h@.len(),
    ensures
        r@ == h@.subrange(a as int, b as int),
{
    let mut out: Vec<char> = Vec::new();
    let mut k = a;
    while k < b
        invariant
            a <= k <= b,
            b <= h@.len(),
            out@ == h@.subrange(a as int, k as int),
        decreases b - k,
    {
        out.push(h[k]);
        k = k + 1;
        assert(out@ =~= h@.subrange(a as int, k as int));
    }
    out
}

fn split_once_chars(h: &Vec<char>, n: &str) -> (r: Option<(Vec<char>, Vec<char>)>)
    ensures
        match split_once(h@, n@) {
            Some(p) => r matches Some(q) && q.0@ == p.0 && q.1@ == p.1,
            None => r is None,
        },
{
    let nc = chars_of(n);
    match find_first(h, &nc) {
        Some(i) => {
            assert(occurs_at(h@, nc@, i as int)) by {
                reveal_with_fuel(first_occ_from, 1);
                lemma_first_occ(h@, nc@, 0);
            }
            let hl = h.len();
            assert(i + nc@.len() <= hl);
            Some((chars_between(h, 0, i), chars_between(h, i + nc.len(), hl)))
        },
        None => None,
    }
}

pub proof fn lemma_first_occ_pub(h: Seq<char>, n: Seq<char>, i: int)
    requires
        0 <= i,
    ensures
        first_occ_from(h, n, i) matches Some(k) ==> occurs_at(h, n, k) && i <= k,
{
    lemma_first_occ(h, n, i);
}

proof fn lemma_first_occ(h: Seq<char>, n: Seq<char>, i: int)
    requires
        0 <= i,
    ensures
        first_occ_from(h, n, i) matches Some(k) ==> occurs_at(h, n, k) && i <= k,
    decreases h.len() + 1 - i,
{
    if i <= h.len() && !occurs_at(h, n, i) {
        lemma_first_occ(h, n, i + 1);
    }
}

fn strip_prefix_chars(s: Vec<char>, p: &str) -> (r: Vec<char>)
    ensures
        r@ == or_same(strip_prefix(s@, p@), s@),
{
    let pc = chars_of(p);
    if matches_at(s.as_slice(), pc.as_slice(), 0) {
        chars_between(&s, pc.len(), s.len())
    } else {
        s
    }
}

fn strip_suffix_chars(s: Vec<char>, p: &str) -> (r: Vec<char>)
    ensures
        r@ == or_same(strip_suffix(s@, p@), s@),
{
    let pc = chars_of(p);
    if pc.len() <= s.len() && matches_at(s.as_slice(), pc.as_slice(), s.len() - pc.len()) {
        chars_between(&s, 0, s.len() - pc.len())
    } else {
        s
    }
}

fn trim_start_slashes(s: Vec<char>) -> (r: Vec<char>)
    ensures
        r@ == trim_start_char(s@, '/'),
{
    let mut k: usize = 0;
    assert(s@.subrange(0, s@.len() as int) =~= s@);
    while k < s.len() && s[k] == '/'
        invariant
            k <= s@.len(),
            trim_start_char(s@, '/') == trim_start_char(s@.subrange(k as int, s@.len() as int), '/'),
        decreases s@.len() - k,
    {
        assert(s@.subrange(k as int, s@.len() as int).drop_first() =~= s@.subrange(k as int + 1, s@.len() as int));
        k = k + 1;
    }
    assert(s@.subrange(0, s@.len() as int) =~= s@);
    chars_between(&s, k, s.len())
}

fn trim_end_slashes(s: Vec<char>) -> (r: Vec<char>)
    ensures
        r@ == trim_end_char(s@, '/'),
{
    let mut s = s;
    let ghost orig = s@;
    while s.len() > 0 && s[s.len() - 1] == '/'
        invariant
            trim_end_char(orig, '/') == trim_end_char(s@, '/'),
        decreases s@.len(),
    {
        let ghost before = s@;
        s.pop();
        assert(s@ =~= before.drop_last());
    }
    s
}

fn path_version_chars(v: Vec<char>) -> (r: Vec<char>)
    ensures
        r@ == path_version(v@),
{
    let v1 = strip_prefix_chars(v, "files/all");
    let v2 = strip_prefix_chars(v1, "files");
    let v3 = strip_prefix_chars(v2, "download");
    let v4 = trim_start_slashes(v3);
    match split_once_chars(&v4, "/") {
        Some((a, _)) => a,
        None => v4,
    }
}

/// Splits an addon query into a slug and an optional version: `slug`, `slug=version`,
/// `slug@version`, `slug/version`, or a catalog URL such as `.../mc-mods/slug/files/123`.
pub fn decode_name_version(mod_req: &str) -> (r: Result<(String, Option<String>), QueryError>)
    ensures
        match decode_spec(mod_req@) {
            Some(d) => r matches Ok(x) && x.0@ == d.0 && match x.1 {
                Some(v) => d.1 == Some(v@),
                None => d.1 is None,
            },
            None => r is Err,
        },
{
    let s0 = chars_of(mod_req);
    let s1 = match split_once_chars(&s0, "?") {
        Some((a, _)) => a,
        None => s0,
    };
    let s2 = match split_once_chars(&s1, "curseforge.com/minecraft/mc-mods/") {
        Some((_, b)) => b,
        None => s1,
    };
    let c = match split_once_chars(&s2, "curseforge.com/projects/") {
        Some((_, b)) => b,
        None => s2,
    };
    let sep = chars_of("://");
    if find_first(&c, &sep).is_some() {
        return Err(QueryError::InvalidPattern(string_of(c.as_slice())));
    }
    let mut slug: Vec<char>;
    let mut version: Option<Vec<char>> = None;
    match split_once_chars(&c, "/") {
        Some((a, b)) => {
            slug = a;
            let v = path_version_chars(b);
            if v.len() > 0 {
                version = Some(v);
            }
        },
        None => {
            match split_once_chars(&c, "=") {
                Some((a, b)) => {
                    slug = a;
                    version = Some(b);
                },
                None => {
                    match split_once_chars(&c, "@") {
                        Some((a, b)) => {
                            slug = a;
                            version = Some(b);
                        },
                        None => {
                            slug = c;
                        },
                    }
                },
            }
        },
    }
    let s1 = trim_end_slashes(slug);
    let s2 = strip_suffix_chars(s1, "/files/all");
    let s3 = strip_suffix_chars(s2, "/files");
    let s4 = strip_suffix_chars(s3, "/download");
    let v = match version {
        Some(v) => {
            let t = trim_end_slashes(v);
            Some(string_of(t.as_slice()))
        },
        None => None,
    };
    Ok((string_of(s4.as_slice()), v))
}

} // verus!
