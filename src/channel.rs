use vstd::prelude::*;

use crate::addon::AddonFile;
use crate::release_type::{rank, ReleaseType};

verus! {

/// Which stability tiers a user accepts for an addon.
#[derive(Clone, Copy, Debug, PartialEq, Eq, Structural)]
pub struct ReleaseTypeMode {
    pub release: bool,
    pub beta: bool,
    pub alpha: bool,
}

/// The largest index below `n` whose file passes the filter and is at least as stable as `g`.
pub open spec fn newest_at_least(v: Seq<AddonFile>, ok: Seq<bool>, g: ReleaseType, n: int) -> Option<int>
    decreases n,
{
    if n <= 0 {
        None
    } else if ok[n - 1] && rank(v[n - 1].release_type) >= rank(g) {
        Some(n - 1)
    } else {
        newest_at_least(v, ok, g, n - 1)
    }
}

/// The index that the channel selects among `v` (ascending by id), given which files pass the
/// compatibility filter: the newest passing file of the most stable accepted tier, trying
/// release, beta and alpha in turn; failing all, the newest file whatever its tier or filter.
pub open spec fn select_spec(m: ReleaseTypeMode, v: Seq<AddonFile>, ok: Seq<bool>) -> Option<int> {
    let n = v.len() as int;
    let r1 = if m.release { newest_at_least(v, ok, ReleaseType::Release, n) } else { None };
    let r2 = if r1 is None && m.beta { newest_at_least(v, ok, ReleaseType::Beta, n) } else { r1 };
    let r3 = if r2 is None && m.alpha { newest_at_least(v, ok, ReleaseType::Alpha, n) } else { r2 };
    if r3 is None && n > 0 { Some(n - 1) } else { r3 }
}

/// The tier under which a list of versions is shown.
pub open spec fn level_spec(m: ReleaseTypeMode, tiers: Seq<ReleaseType>) -> ReleaseType {
    let release_found = tiers.contains(ReleaseType::Release);
    let beta_found = tiers.contains(ReleaseType::Beta);
    if m.release && release_found {
        ReleaseType::Release
    } else if m.beta && (release_found || beta_found) {
        ReleaseType::Beta
    } else {
        ReleaseType::Alpha
    }
}

pub proof fn lemma_newest_at_least(v: Seq<AddonFile>, ok: Seq<bool>, g: ReleaseType, n: int)
    requires
        0 <= n <= v.len(),
        ok.len() == v.len(),
    ensures
        match newest_at_least(v, ok, g, n) {
            Some(i) => 0 <= i < n && ok[i] && rank(v[i].release_type) >= rank(g)
                && forall|j: int| i < j < n ==> !(ok[j] && rank(#[trigger] v[j].release_type) >= rank(g)),
            None => forall|j: int| 0 <= j < n ==> !(ok[j] && rank(#[trigger] v[j].release_type) >= rank(g)),
        },
    decreases n,
{
    if n > 0 {
        lemma_newest_at_least(v, ok, g, n - 1);
    }
}

pub proof fn lemma_push_contains<T>(s: Seq<T>, x: T, y: T)
    ensures
        s.push(x).contains(y) <==> (s.contains(y) || x == y),
{
    if s.contains(y) {
        let i = choose|i: int| 0 <= i < s.len() && s[i] == y;
        assert(s.push(x)[i] == y);
    }
    if x == y {
        assert(s.push(x)[s.len() as int] == y);
    }
    if s.push(x).contains(y) {
        let i = choose|i: int| 0 <= i < s.push(x).len() && s.push(x)[i] == y;
        if i < s.len() {
            assert(s[i] == y);
        }
    }
}

impl ReleaseTypeMode {
    /// A channel; accepting no tier at all means accepting every tier.
    pub fn new(release: bool, beta: bool, alpha: bool) -> (r: Self)
        ensures
            (release || beta || alpha) ==> r == (ReleaseTypeMode { release, beta, alpha }),
            !(release || beta || alpha) ==> r == (ReleaseTypeMode { release: true, beta: true, alpha: true }),
    {
        if !(release || beta || alpha) {
            ReleaseTypeMode { release: true, beta: true, alpha: true }
        } else {
            ReleaseTypeMode { release, beta, alpha }
        }
    }

    /// A channel, or nothing if no tier is accepted.
    pub fn new2(release: bool, beta: bool, alpha: bool) -> (r: Option<Self>)
        ensures
            (release || beta || alpha) ==> r == Some(ReleaseTypeMode { release, beta, alpha }),
            !(release || beta || alpha) ==> r is None,
    {
        if !(release || beta || alpha) {
            None
        } else {
            Some(ReleaseTypeMode { release, beta, alpha })
        }
    }

    /// Whether a file of tier `r` could be chosen under this channel.
    pub fn legal(&self, r: ReleaseType) -> (b: bool)
        ensures
            b == match r {
                ReleaseType::Release => self.alpha || self.beta || self.release,
                ReleaseType::Beta => self.alpha || self.beta,
                ReleaseType::Alpha => self.alpha,
            },
    {
        match r {
            ReleaseType::Release => self.alpha || self.beta || self.release,
            ReleaseType::Beta => self.alpha || self.beta,
            ReleaseType::Alpha => self.alpha,
        }
    }

    pub open spec fn union_spec(self, rhs: Self) -> Self {
        ReleaseTypeMode { release: self.release || rhs.release, beta: self.beta || rhs.beta, alpha: self.alpha || rhs.alpha }
    }

    /// The channel's letters: `r`, `b` and `a` for the accepted tiers, in that order.
    pub fn to_string(&self) -> (r: String)
        ensures
            r@ == (if self.release { seq!['r'] } else { seq![] }) + (if self.beta { seq!['b'] } else { seq![] })
                + (if self.alpha { seq!['a'] } else { seq![] }),
    {
        let mut c: Vec<char> = Vec::new();
        if self.release {
            c.push('r');
        }
        if self.beta {
            c.push('b');
        }
        if self.alpha {
            c.push('a');
        }
        assert(c@ =~= (if self.release { seq!['r'] } else { seq![] }) + (if self.beta { seq!['b'] } else { seq![] })
                + (if self.alpha { seq!['a'] } else { seq![] }));
        crate::text::string_of_chars(&c)
    }

    /// The channel accepting every tier that either channel accepts.
    pub fn union(self, rhs: Self) -> (r: Self)
        ensures
            r == self.union_spec(rhs),
    {
        ReleaseTypeMode {
            release: self.release || rhs.release,
            beta: self.beta || rhs.beta,
            alpha: self.alpha || rhs.alpha,
        }
    }

    fn find_legal(v: &[AddonFile], ok: &[bool], g: ReleaseType) -> (r: Option<usize>)
        requires
            ok@.len() == v@.len(),
        ensures
            match r {
                Some(i) => newest_at_least(v@, ok@, g, v@.len() as int) == Some(i as int),
                None => newest_at_least(v@, ok@, g, v@.len() as int) is None,
            },
    {
        let mut n: usize = v.len();
        while n > 0
            invariant
                n <= v@.len(),
                ok@.len() == v@.len(),
                newest_at_least(v@, ok@, g, v@.len() as int) == newest_at_least(v@, ok@, g, n as int),
            decreases n,
        {
            if ok[n - 1] && v[n - 1].release_type.more_stable_than(&g) {
                return Some(n - 1);
            }
            n = n - 1;
        }
        None
    }

    /// Chooses among `v`, sorted ascending by file id, where `ok[i]` tells whether `v[i]` passes
    /// the compatibility filter.
    pub fn select(&self, v: &[AddonFile], ok: &[bool]) -> (r: Option<usize>)
        requires
            ok@.len() == v@.len(),
        ensures
            match r {
                Some(i) => select_spec(*self, v@, ok@) == Some(i as int),
                None => select_spec(*self, v@, ok@) is None,
            },
    {
        let mut r: Option<usize> = None;
        if self.release {
            r = Self::find_legal(v, ok, ReleaseType::Release);
        }
        if r.is_none() && self.beta {
            r = Self::find_legal(v, ok, ReleaseType::Beta);
        }
        if r.is_none() && self.alpha {
            r = Self::find_legal(v, ok, ReleaseType::Alpha);
        }
        if r.is_none() && v.len() > 0 {
            r = Some(v.len() - 1);
        }
        r
    }

    /// The tier under which versions of the given tiers are grouped for display.
    pub fn pick_level(&self, tiers: &[ReleaseType]) -> (r: ReleaseType)
        ensures
            r == level_spec(*self, tiers@),
    {
        let mut release_found = false;
        let mut beta_found = false;
        let mut i: usize = 0;
        while i < tiers.len()
            invariant
                i <= tiers@.len(),
                release_found == tiers@.subrange(0, i as int).contains(ReleaseType::Release),
                beta_found == tiers@.subrange(0, i as int).contains(ReleaseType::Beta),
            decreases tiers@.len() - i,
        {
            let ghost pre = tiers@.subrange(0, i as int);
            let t = tiers[i];
            assert(tiers@.subrange(0, i as int + 1) =~= pre.push(t));
            proof {
                lemma_push_contains(pre, t, ReleaseType::Release);
                lemma_push_contains(pre, t, ReleaseType::Beta);
            }
            if t == ReleaseType::Release {
                release_found = true;
            }
            if t == ReleaseType::Beta {
                beta_found = true;
            }
            i = i + 1;
        }
        assert(tiers@.subrange(0, i as int) =~= tiers@);
        if self.release && release_found {
            return ReleaseType::Release;
        }
        if self.beta && (release_found || beta_found) {
            return ReleaseType::Beta;
        }
        ReleaseType::Alpha
    }
}

/// A release-only channel, given at least one compatible release file, selects a release file
/// that is compatible and is the newest such file.
pub proof fn lemma_release_only_selects_newest_release(v: Seq<AddonFile>, ok: Seq<bool>, k: int)
    requires
        ok.len() == v.len(),
        0 <= k < v.len(),
        ok[k],
        v[k].release_type == ReleaseType::Release,
    ensures
        ({
            let m = ReleaseTypeMode { release: true, beta: false, alpha: false };
            match select_spec(m, v, ok) {
                Some(i) => 0 <= i < v.len() && ok[i] && v[i].release_type == ReleaseType::Release
                    && forall|j: int| i < j < v.len() && ok[j] ==> #[trigger] v[j].release_type != ReleaseType::Release,
                None => false,
            }
        }),
{
    let n = v.len() as int;
    lemma_newest_at_least(v, ok, ReleaseType::Release, n);
    assert(rank(v[k].release_type) >= rank(ReleaseType::Release));
    match newest_at_least(v, ok, ReleaseType::Release, n) {
        Some(i) => {
            assert(v[i].release_type == ReleaseType::Release);
            assert forall|j: int| i < j < v.len() && ok[j] implies #[trigger] v[j].release_type != ReleaseType::Release by {
                if v[j].release_type == ReleaseType::Release {
                    assert(rank(v[j].release_type) >= rank(ReleaseType::Release));
                }
            }
        },
        None => {},
    }
}

/// A selected index lies within the candidates.
pub proof fn lemma_select_in_bounds(m: ReleaseTypeMode, v: Seq<AddonFile>, ok: Seq<bool>)
    requires
        ok.len() == v.len(),
    ensures
        select_spec(m, v, ok) matches Some(i) ==> 0 <= i < v.len(),
{
    let n = v.len() as int;
    lemma_newest_at_least(v, ok, ReleaseType::Release, n);
    lemma_newest_at_least(v, ok, ReleaseType::Beta, n);
    lemma_newest_at_least(v, ok, ReleaseType::Alpha, n);
}

/// Selection never comes back empty-handed from a non-empty candidate list.
pub proof fn lemma_select_nonempty(m: ReleaseTypeMode, v: Seq<AddonFile>, ok: Seq<bool>)
    requires
        ok.len() == v.len(),
        v.len() > 0,
    ensures
        select_spec(m, v, ok) is Some,
        0 <= select_spec(m, v, ok)->0 < v.len(),
{
    let n = v.len() as int;
    lemma_newest_at_least(v, ok, ReleaseType::Release, n);
    lemma_newest_at_least(v, ok, ReleaseType::Beta, n);
    lemma_newest_at_least(v, ok, ReleaseType::Alpha, n);
}

} // verus!
