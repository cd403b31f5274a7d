use vstd::prelude::*;

use crate::addon::{AddonFile, AddonID, LocalAddon, LocalAddons};
use crate::query::{chars_between_pub, find_first, first_occ_from};
use crate::version::GameVersion;
use crate::text::{chars_of, string_of, trim_of, trimmed};

verus! {

/// An entry that matched a query: its key, its text as compared, and where the query lies in
/// that text (in characters, `start..end`).
#[derive(Clone, Debug)]
pub struct Match<Z> {
    pub z: Z,
    pub string: String,
    pub start: usize,
    pub end: usize,
}

/// What one character becomes at comparison level `k` (1 to 4): ASCII-lowercased; dropped
/// unless ASCII; a space, dash or comma turned into an underscore; an underscore dropped.
pub open spec fn step_char(k: nat, c: char) -> Option<char> {
    if k == 1 {
        if 'A' <= c && c <= 'Z' { Some(((c as u8) + 32) as char) } else { Some(c) }
    } else if k == 2 {
        if (c as u32) < 128 { Some(c) } else { None }
    } else if k == 3 {
        if c == ' ' || c == '-' || c == ',' { Some('_') } else { Some(c) }
    } else {
        if c != '_' { Some(c) } else { None }
    }
}

pub open spec fn apply_level(k: nat, s: Seq<char>) -> Seq<char>
    decreases s.len(),
{
    if s.len() == 0 {
        seq![]
    } else {
        let r = apply_level(k, s.drop_last());
        match step_char(k, s.last()) {
            Some(c) => r.push(c),
            None => r,
        }
    }
}

/// The comparison form of an entry's text at level `k`: trimmed, then each level's step in
/// turn up to `k`.
pub open spec fn level_text(k: nat, s: Seq<char>) -> Seq<char>
    decreases k,
{
    if k == 0 {
        trim_of(s)
    } else {
        apply_level(k, level_text((k - 1) as nat, s))
    }
}

/// Whether the entry text `v` matches the query `q`: equal to it, or containing it.
pub open spec fn hit(exact: bool, q: Seq<char>, v: Seq<char>) -> bool {
    if exact { v == q } else { first_occ_from(v, q, 0) is Some }
}

/// The hits among `list` at level `k`, as (key, text, start, end), in list order.
pub open spec fn hits<Z>(list: Seq<(Z, Seq<char>)>, k: nat, exact: bool, q: Seq<char>) -> Seq<(Z, Seq<char>, int, int)>
    decreases list.len(),
{
    if list.len() == 0 {
        seq![]
    } else {
        let rest = hits(list.drop_last(), k, exact, q);
        let v = level_text(k, list.last().1);
        if hit(exact, q, v) {
            let start = if exact { 0 } else { first_occ_from(v, q, 0)->0 };
            rest.push((list.last().0, v, start, start + q.len()))
        } else {
            rest
        }
    }
}

/// The first non-empty set of hits, trying each level from `k` on, and within a level each
/// list from `j` on.
pub open spec fn first_hits<Z>(srcs: Seq<Seq<(Z, Seq<char>)>>, exact: bool, q: Seq<char>, k: nat, j: int)
    -> Seq<(Z, Seq<char>, int, int)>
    decreases 5 - k, srcs.len() - j,
{
    if k >= 5 {
        seq![]
    } else if j < 0 || j >= srcs.len() {
        first_hits(srcs, exact, q, k + 1, 0)
    } else {
        let h = hits(srcs[j], k, exact, q);
        if h.len() > 0 { h } else { first_hits(srcs, exact, q, k, j + 1) }
    }
}

/// The matches for a query: the exact ones if there are any, else those containing it.
pub open spec fn match_spec<Z>(srcs: Seq<Seq<(Z, Seq<char>)>>, q: Seq<char>) -> Seq<(Z, Seq<char>, int, int)> {
    let e = first_hits(srcs, true, q, 0, 0);
    if e.len() > 0 { e } else { first_hits(srcs, false, q, 0, 0) }
}

pub open spec fn match_view<Z>(m: Match<Z>) -> (Z, Seq<char>, int, int) {
    (m.z, m.string@, m.start as int, m.end as int)
}

fn level_step(k: u8, c: char) -> (r: Option<char>)
    requires
        1 <= k <= 4,
    ensures
        r == step_char(k as nat, c),
{
    if k == 1 {
        if 'A' <= c && c <= 'Z' { Some(((c as u8) + 32) as char) } else { Some(c) }
    } else if k == 2 {
        if (c as u32) < 128 { Some(c) } else { None }
    } else if k == 3 {
        if c == ' ' || c == '-' || c == ',' { Some('_') } else { Some(c) }
    } else {
        if c != '_' { Some(c) } else { None }
    }
}

fn apply(k: u8, v: &Vec<char>) -> (r: Vec<char>)
    requires
        1 <= k <= 4,
    ensures
        r@ == apply_level(k as nat, v@),
{
    let mut out: Vec<char> = Vec::new();
    let mut i: usize = 0;
    while i < v.len()
        invariant
            1 <= k <= 4,
            i <= v@.len(),
            out@ == apply_level(k as nat, v@.subrange(0, i as int)),
        decreases v@.len() - i,
    {
        assert(v@.subrange(0, i as int + 1).drop_last() =~= v@.subrange(0, i as int));
        match level_step(k, v[i]) {
            Some(c) => out.push(c),
            None => {},
        }
        i = i + 1;
    }
    assert(v@.subrange(0, i as int) =~= v@);
    out
}

fn same_chars(a: &Vec<char>, b: &Vec<char>) -> (r: bool)
    ensures
        r == (a@ == b@),
{
    if a.len() != b.len() {
        return false;
    }
    let mut i: usize = 0;
    while i < a.len()
        invariant
            a@.len() == b@.len(),
            i <= a@.len(),
            forall|m: int| 0 <= m < i ==> a@[m] == b@[m],
        decreases a@.len() - i,
    {
        if a[i] != b[i] {
            return false;
        }
        i = i + 1;
    }
    assert(a@ =~= b@);
    true
}

/// The entries' texts at level `k`, with their keys.
pub open spec fn texts_at<Z>(list: Seq<(Z, Seq<char>)>, k: nat, t: Seq<(Z, Vec<char>)>) -> bool {
    &&& t.len() == list.len()
    &&& forall|i: int| 0 <= i < list.len() ==> (#[trigger] t[i]).0 == list[i].0 && t[i].1@ == level_text(k, list[i].1)
}

/// The entries of a list as (key, text).
pub open spec fn entries_view<Z>(l: Seq<(Z, String)>) -> Seq<(Z, Seq<char>)> {
    l.map_values(|e: (Z, String)| (e.0, e.1@))
}

fn level0<Z: Copy>(list: &Vec<(Z, String)>) -> (r: Vec<(Z, Vec<char>)>)
    ensures
        texts_at(entries_view(list@), 0, r@),
{
    let mut out: Vec<(Z, Vec<char>)> = Vec::new();
    let mut i: usize = 0;
    while i < list.len()
        invariant
            i <= list@.len(),
            out@.len() == i,
            forall|m: int| 0 <= m < i ==> (#[trigger] out@[m]).0 == list@[m].0 && out@[m].1@ == level_text(0, list@[m].1@),
        decreases list@.len() - i,
    {
        let t = trimmed(list[i].1.as_str());
        out.push((list[i].0, chars_of(t.as_str())));
        i = i + 1;
    }
    out
}

fn next_level<Z: Copy>(list: Ghost<Seq<(Z, Seq<char>)>>, k: u8, cur: &Vec<(Z, Vec<char>)>) -> (r: Vec<(Z, Vec<char>)>)
    requires
        1 <= k <= 4,
        texts_at(list@, (k - 1) as nat, cur@),
    ensures
        texts_at(list@, k as nat, r@),
{
    let mut out: Vec<(Z, Vec<char>)> = Vec::new();
    let mut i: usize = 0;
    while i < cur.len()
        invariant
            1 <= k <= 4,
            texts_at(list@, (k - 1) as nat, cur@),
            i <= cur@.len(),
            out@.len() == i,
            forall|m: int| 0 <= m < i ==> (#[trigger] out@[m]).0 == list@[m].0 && out@[m].1@ == level_text(k as nat, list@[m].1),
        decreases cur@.len() - i,
    {
        let t = apply(k, &cur[i].1);
        assert(cur@[i as int].1@ == level_text((k - 1) as nat, list@[i as int].1));
        out.push((cur[i].0, t));
        i = i + 1;
    }
    out
}

fn hits_in<Z: Copy>(list: Ghost<Seq<(Z, Seq<char>)>>, k: Ghost<nat>, t: &Vec<(Z, Vec<char>)>, exact: bool, q: &Vec<char>)
    -> (r: Vec<Match<Z>>)
    requires
        texts_at(list@, k@, t@),
    ensures
        r@.map_values(|m: Match<Z>| match_view(m)) == hits(list@, k@, exact, q@),
{
    let mut out: Vec<Match<Z>> = Vec::new();
    let mut i: usize = 0;
    while i < t.len()
        invariant
            texts_at(list@, k@, t@),
            i <= t@.len(),
            out@.map_values(|m: Match<Z>| match_view(m)) == hits(list@.subrange(0, i as int), k@, exact, q@),
        decreases t@.len() - i,
    {
        let ghost pre = list@.subrange(0, i as int);
        assert(list@.subrange(0, i as int + 1).drop_last() =~= pre);
        assert(list@.subrange(0, i as int + 1).last() == list@[i as int]);
        let v = &t[i].1;
        let ghost prev = out@;
        if exact {
            if same_chars(v, q) {
                out.push(Match { z: t[i].0, string: string_of(v.as_slice()), start: 0, end: q.len() });
            }
        } else {
            match find_first(v, q) {
                Some(off) => {
                    let vl = v.len();
                    assert(off + q@.len() <= vl) by {
                        crate::query::lemma_first_occ_pub(v@, q@, 0);
                    }
                    out.push(Match { z: t[i].0, string: string_of(v.as_slice()), start: off, end: off + q.len() });
                },
                None => {},
            }
        }
        assert(out@.map_values(|m: Match<Z>| match_view(m)) =~= hits(list@.subrange(0, i as int + 1), k@, exact, q@)) by {
            assert(prev.map_values(|m: Match<Z>| match_view(m)) == hits(pre, k@, exact, q@));
            if out@.len() > prev.len() {
                assert(out@.map_values(|m: Match<Z>| match_view(m)) =~= prev.map_values(|m: Match<Z>| match_view(m)).push(match_view(out@.last())));
            } else {
                assert(out@ == prev);
            }
        }
        i = i + 1;
    }
    assert(list@.subrange(0, i as int) =~= list@);
    out
}

pub open spec fn srcs_view<Z>(srcs: Seq<Vec<(Z, String)>>) -> Seq<Seq<(Z, Seq<char>)>> {
    srcs.map_values(|l: Vec<(Z, String)>| entries_view(l@))
}

fn first_hits_exec<Z: Copy>(srcs: &Vec<Vec<(Z, String)>>, exact: bool, q: &Vec<char>) -> (r: Vec<Match<Z>>)
    ensures
        r@.map_values(|m: Match<Z>| match_view(m)) == first_hits(srcs_view(srcs@), exact, q@, 0, 0),
{
    let ghost sv = srcs_view(srcs@);
    let mut cur: Vec<Vec<(Z, Vec<char>)>> = Vec::new();
    let mut j: usize = 0;
    while j < srcs.len()
        invariant
            sv == srcs_view(srcs@),
            j <= srcs@.len(),
            cur@.len() == j,
            forall|m: int| 0 <= m < j ==> texts_at(sv[m], 0, (#[trigger] cur@[m])@),
        decreases srcs@.len() - j,
    {
        cur.push(level0(&srcs[j]));
        j = j + 1;
    }
    let mut k: u8 = 0;
    while k < 5
        invariant
            sv == srcs_view(srcs@),
            k <= 5,
            cur@.len() == srcs@.len(),
            forall|m: int| 0 <= m < cur@.len() ==> texts_at(sv[m], k as nat, (#[trigger] cur@[m])@),
            first_hits(sv, exact, q@, 0, 0) == first_hits(sv, exact, q@, k as nat, 0),
        decreases 5 - k,
    {
        let mut i: usize = 0;
        while i < cur.len()
            invariant
                sv == srcs_view(srcs@),
                k < 5,
                i <= cur@.len(),
                cur@.len() == srcs@.len(),
                forall|m: int| 0 <= m < cur@.len() ==> texts_at(sv[m], k as nat, (#[trigger] cur@[m])@),
                first_hits(sv, exact, q@, 0, 0) == first_hits(sv, exact, q@, k as nat, i as int),
            decreases cur@.len() - i,
        {
            let h = hits_in(Ghost(sv[i as int]), Ghost(k as nat), &cur[i], exact, q);
            if h.len() > 0 {
                return h;
            }
            i = i + 1;
        }
        if k == 4 {
            assert(first_hits(sv, exact, q@, 5, 0).len() == 0);
            return Vec::new();
        }
        let mut next: Vec<Vec<(Z, Vec<char>)>> = Vec::new();
        let mut m: usize = 0;
        while m < cur.len()
            invariant
                sv == srcs_view(srcs@),
                k < 4,
                m <= cur@.len(),
                cur@.len() == srcs@.len(),
                next@.len() == m,
                forall|x: int| 0 <= x < cur@.len() ==> texts_at(sv[x], k as nat, (#[trigger] cur@[x])@),
                forall|x: int| 0 <= x < m ==> texts_at(sv[x], (k + 1) as nat, (#[trigger] next@[x])@),
            decreases cur@.len() - m,
        {
            next.push(next_level(Ghost(sv[m as int]), k + 1, &cur[m]));
            m = m + 1;
        }
        cur = next;
        k = k + 1;
    }
    Vec::new()
}

/// Finds the entry a query names among lists of (key, text) entries: the texts are compared
/// trimmed, then also lowercased, without non-ASCII characters, with separators as underscores,
/// and without underscores, each list in turn at each level; an entry equal to the query is
/// preferred to one containing it. One match is the answer; none or several are an error that
/// lists them.
pub fn match_str<Z: Copy>(s: &str, srcs: &Vec<Vec<(Z, String)>>) -> (r: Result<Match<Z>, Vec<Match<Z>>>)
    ensures
        ({
            let m = match_spec(srcs_view(srcs@), s@);
            match r {
                Ok(x) => m.len() == 1 && match_view(x) == m[0],
                Err(v) => m.len() != 1 && v@.map_values(|x: Match<Z>| match_view(x)) == m,
            }
        }),
{
    let q = chars_of(s);
    let e = first_hits_exec(srcs, true, &q);
    let found = if e.len() > 0 {
        e
    } else {
        proof {
            assert(e@.map_values(|x: Match<Z>| match_view(x)).len() == 0);
        }
        first_hits_exec(srcs, false, &q)
    };
    let ghost fv = found@.map_values(|x: Match<Z>| match_view(x));
    if found.len() == 1 {
        let mut found = found;
        let x = found.pop().unwrap();
        assert(fv[0] == match_view(x));
        Ok(x)
    } else {
        Err(found)
    }
}

impl<Z> Match<Z> {
    pub open spec fn wf(&self) -> bool {
        self.start <= self.end <= self.string@.len()
    }

    /// The text before the match.
    pub fn prefix(&self) -> (r: String)
        requires
            self.wf(),
        ensures
            r@ == self.string@.subrange(0, self.start as int),
    {
        let c = chars_of(self.string.as_str());
        let v = crate::query::chars_between_pub(&c, 0, self.start);
        string_of(v.as_slice())
    }

    /// The matched text.
    pub fn marked(&self) -> (r: String)
        requires
            self.wf(),
        ensures
            r@ == self.string@.subrange(self.start as int, self.end as int),
    {
        let c = chars_of(self.string.as_str());
        let v = crate::query::chars_between_pub(&c, self.start, self.end);
        string_of(v.as_slice())
    }

    /// The text after the match.
    pub fn suffix(&self) -> (r: String)
        requires
            self.wf(),
        ensures
            r@ == self.string@.subrange(self.end as int, self.string@.len() as int),
    {
        let c = chars_of(self.string.as_str());
        let n = c.len();
        let v = crate::query::chars_between_pub(&c, self.end, n);
        string_of(v.as_slice())
    }
}

/// Why no single entry was found.
#[derive(Clone, Debug)]
pub enum MatchError<Z> {
    NoMatch,
    Ambiguous(Vec<Match<Z>>),
}

pub open spec fn ambiguous_with<Z>(e: MatchError<Z>, v: Seq<Match<Z>>) -> bool {
    match e {
        MatchError::Ambiguous(w) => w@ == v,
        MatchError::NoMatch => false,
    }
}

/// One match, or why there is none: nothing matched, or several did.
pub fn unwrap_match<Z>(r: Result<Match<Z>, Vec<Match<Z>>>) -> (o: Result<Match<Z>, MatchError<Z>>)
    ensures
        match r {
            Ok(m) => o == Ok::<Match<Z>, MatchError<Z>>(m),
            Err(v) => if v@.len() == 0 { o is Err && o->Err_0 is NoMatch } else { o is Err && ambiguous_with(o->Err_0, v@) },
        },
{
    match r {
        Ok(m) => Ok(m),
        Err(v) => if v.len() == 0 { Err(MatchError::NoMatch) } else { Err(MatchError::Ambiguous(v)) },
    }
}

/// What follows the last slash, or the whole text.
pub open spec fn after_last_slash(s: Seq<char>) -> Seq<char>
    decreases s.len(),
{
    if s.len() == 0 {
        s
    } else if s.last() == '/' {
        seq![]
    } else {
        after_last_slash(s.drop_last()).push(s.last())
    }
}

/// The part of a path after its last slash.
pub fn cut_after_slash(s: &str) -> (r: String)
    ensures
        r@ == after_last_slash(s@),
{
    let c = chars_of(s);
    let mut k = c.len();
    assert(c@.subrange(0, c@.len() as int) =~= c@);
    assert(c@.subrange(c@.len() as int, c@.len() as int) =~= Seq::<char>::empty());
    assert(after_last_slash(c@) + Seq::<char>::empty() =~= after_last_slash(c@));
    while k > 0 && c[k - 1] != '/'
        invariant
            k <= c@.len(),
            after_last_slash(c@) == after_last_slash(c@.subrange(0, k as int)) + c@.subrange(k as int, c@.len() as int),
        decreases k,
    {
        let ghost pre = c@.subrange(0, k as int - 1);
        assert(c@.subrange(0, k as int).drop_last() =~= pre);
        assert(c@.subrange(k as int - 1, c@.len() as int) =~= seq![c@[k - 1]] + c@.subrange(k as int, c@.len() as int));
        assert(after_last_slash(pre).push(c@[k - 1]) + c@.subrange(k as int, c@.len() as int)
            =~= after_last_slash(pre) + c@.subrange(k as int - 1, c@.len() as int));
        k = k - 1;
    }
    proof {
        assert(c@.subrange(0, c@.len() as int) =~= c@);
        assert(c@.subrange(c@.len() as int, c@.len() as int) =~= Seq::<char>::empty());
        if k > 0 {
            assert(after_last_slash(c@.subrange(0, k as int)) =~= Seq::<char>::empty());
        }
        assert(after_last_slash(c@.subrange(0, k as int)) =~= Seq::<char>::empty());
        assert(after_last_slash(c@) =~= c@.subrange(k as int, c@.len() as int));
    }
    let n = c.len();
    let v = chars_between_pub(&c, k, n);
    string_of(v.as_slice())
}

/// How a file is shown: its trimmed file name, preceded by its trimmed display name where the
/// two differ.
pub fn addon_file_display_name(f: &AddonFile) -> (r: String)
    ensures
        trim_of(f.display_name@) == trim_of(f.file_name@) ==> r@ == trim_of(f.file_name@),
        trim_of(f.display_name@) != trim_of(f.file_name@) ==> r@ == trim_of(f.display_name@) + seq![' ', '(']
            + trim_of(f.file_name@) + seq![')'],
{
    let d = trimmed(f.display_name.as_str());
    let n = trimmed(f.file_name.as_str());
    if d == n {
        n
    } else {
        let mut c = chars_of(d.as_str());
        c.push(' ');
        c.push('(');
        let mut m = chars_of(n.as_str());
        c.append(&mut m);
        c.push(')');
        assert(c@ =~= trim_of(f.display_name@) + seq![' ', '('] + trim_of(f.file_name@) + seq![')']);
        string_of(c.as_slice())
    }
}

/// Whether one of the file's game versions is accepted.
pub open spec fn file_accepted(gv: GameVersion, f: AddonFile) -> bool {
    exists|i: int| 0 <= i < f.game_version@.len() && gv.accepts_text((#[trigger] f.game_version@[i]).str@)
}

/// (index, display name) of the accepted files among the first `n`.
pub open spec fn version_names(v: Seq<AddonFile>, gv: GameVersion, n: int) -> Seq<(usize, Seq<char>)>
    decreases n,
{
    if n <= 0 {
        seq![]
    } else if file_accepted(gv, v[n - 1]) {
        version_names(v, gv, n - 1).push(((n - 1) as usize, v[n - 1].display_name@))
    } else {
        version_names(v, gv, n - 1)
    }
}

/// (index, file name after its last slash) of the accepted files among the first `n`.
pub open spec fn version_files(v: Seq<AddonFile>, gv: GameVersion, n: int) -> Seq<(usize, Seq<char>)>
    decreases n,
{
    if n <= 0 {
        seq![]
    } else if file_accepted(gv, v[n - 1]) {
        version_files(v, gv, n - 1).push(((n - 1) as usize, after_last_slash(trim_of(v[n - 1].file_name@))))
    } else {
        version_files(v, gv, n - 1)
    }
}

/// Finds the file a version query names among the files for the game version, by display
/// name, then by file name; the key is the file's position in `v`.
pub fn find_to_install_version_by_key(s: &str, v: &[AddonFile], game_version: &GameVersion)
    -> (r: Result<Match<usize>, Vec<Match<usize>>>)
    requires
        game_version.wf(),
    ensures
        ({
            let m = match_spec(seq![version_names(v@, *game_version, v@.len() as int),
                version_files(v@, *game_version, v@.len() as int)], s@);
            match r {
                Ok(x) => m.len() == 1 && match_view(x) == m[0],
                Err(w) => m.len() != 1 && w@.map_values(|x: Match<usize>| match_view(x)) == m,
            }
        }),
{
    let mut names: Vec<(usize, String)> = Vec::new();
    let mut files: Vec<(usize, String)> = Vec::new();
    let mut i: usize = 0;
    while i < v.len()
        invariant
            game_version.wf(),
            i <= v@.len(),
            entries_view(names@) == version_names(v@, *game_version, i as int),
            entries_view(files@) == version_files(v@, *game_version, i as int),
        decreases v@.len() - i,
    {
        if game_version.matches(v[i].game_version.as_slice()) {
            let ghost pn = names@;
            let ghost pf = files@;
            names.push((i, v[i].display_name.clone()));
            let t = trimmed(v[i].file_name.as_str());
            files.push((i, cut_after_slash(t.as_str())));
            assert(entries_view(names@) =~= entries_view(pn).push((i, v@[i as int].display_name@)));
            assert(entries_view(files@) =~= entries_view(pf).push((i, after_last_slash(trim_of(v@[i as int].file_name@)))));
        }
        i = i + 1;
    }
    let mut srcs: Vec<Vec<(usize, String)>> = Vec::new();
    srcs.push(names);
    srcs.push(files);
    assert(srcs_view(srcs@) =~= seq![version_names(v@, *game_version, v@.len() as int),
        version_files(v@, *game_version, v@.len() as int)]);
    match_str(s, &srcs)
}

/// Whether a record takes part in a lookup: it is installed, or purged records count too.
pub open spec fn listed(a: LocalAddon, purge_mode: bool) -> bool {
    a.installed is Some || purge_mode
}

pub open spec fn slug_keys(v: Seq<LocalAddon>, purge_mode: bool, n: int) -> Seq<(AddonID, Seq<char>)>
    decreases n,
{
    if n <= 0 {
        seq![]
    } else if listed(v[n - 1], purge_mode) {
        slug_keys(v, purge_mode, n - 1).push((v[n - 1].id, v[n - 1].slug.0@))
    } else {
        slug_keys(v, purge_mode, n - 1)
    }
}

pub open spec fn name_keys(v: Seq<LocalAddon>, purge_mode: bool, n: int) -> Seq<(AddonID, Seq<char>)>
    decreases n,
{
    if n <= 0 {
        seq![]
    } else if listed(v[n - 1], purge_mode) {
        name_keys(v, purge_mode, n - 1).push((v[n - 1].id, v[n - 1].name@))
    } else {
        name_keys(v, purge_mode, n - 1)
    }
}

pub open spec fn file_keys(v: Seq<LocalAddon>, n: int) -> Seq<(AddonID, Seq<char>)>
    decreases n,
{
    if n <= 0 {
        seq![]
    } else if v[n - 1].installed is Some {
        file_keys(v, n - 1).push((v[n - 1].id, after_last_slash(trim_of(v[n - 1].installed->0.file_name@))))
    } else {
        file_keys(v, n - 1)
    }
}

/// Finds the addon a query names among the repository's records, by slug, then by name, then
/// by installed file name.
pub fn find_installed_mod_by_key(s: &str, v: &LocalAddons, purge_mode: bool) -> (r: Result<Match<AddonID>, Vec<Match<AddonID>>>)
    ensures
        ({
            let m = match_spec(seq![slug_keys(v@, purge_mode, v@.len() as int), name_keys(v@, purge_mode, v@.len() as int),
                file_keys(v@, v@.len() as int)], s@);
            match r {
                Ok(x) => m.len() == 1 && match_view(x) == m[0],
                Err(w) => m.len() != 1 && w@.map_values(|x: Match<AddonID>| match_view(x)) == m,
            }
        }),
{
    let mut slugs: Vec<(AddonID, String)> = Vec::new();
    let mut names: Vec<(AddonID, String)> = Vec::new();
    let mut files: Vec<(AddonID, String)> = Vec::new();
    let mut i: usize = 0;
    while i < v.0.len()
        invariant
            i <= v@.len(),
            entries_view(slugs@) == slug_keys(v@, purge_mode, i as int),
            entries_view(names@) == name_keys(v@, purge_mode, i as int),
            entries_view(files@) == file_keys(v@, i as int),
        decreases v@.len() - i,
    {
        let a = &v.0[i];
        let ghost ps = slugs@;
        let ghost pn = names@;
        let ghost pf = files@;
        if a.installed.is_some() || purge_mode {
            slugs.push((a.id, a.slug.0.clone()));
            names.push((a.id, a.name.clone()));
            assert(entries_view(slugs@) =~= entries_view(ps).push((a.id, a.slug.0@)));
            assert(entries_view(names@) =~= entries_view(pn).push((a.id, a.name@)));
        }
        match &a.installed {
            Some(f) => {
                let t = trimmed(f.file_name.as_str());
                files.push((a.id, cut_after_slash(t.as_str())));
                assert(entries_view(files@) =~= entries_view(pf).push((a.id, after_last_slash(trim_of(f.file_name@)))));
            },
            None => {},
        }
        i = i + 1;
    }
    let mut srcs: Vec<Vec<(AddonID, String)>> = Vec::new();
    srcs.push(slugs);
    srcs.push(names);
    srcs.push(files);
    assert(srcs_view(srcs@) =~= seq![slug_keys(v@, purge_mode, v@.len() as int), name_keys(v@, purge_mode, v@.len() as int),
        file_keys(v@, v@.len() as int)]);
    match_str(s, &srcs)
}

} // verus!
