use vstd::prelude::*;

use crate::addon::{kind_ids, AddonFile, AddonID, FileID, LocalAddons, LocalAddon, KIND_REQUIRED};
use crate::channel::{select_spec, ReleaseTypeMode};
use crate::conf::{opt_view, Conf};
use crate::release_type::ReleaseType;
use crate::text::{chars_of, trim_of, trimmed};

verus! {

/// The number of leading versions older than `fid`, counting from `i`.
pub open spec fn older_prefix(v: Seq<AddonFile>, fid: FileID, i: int) -> int
    decreases v.len() - i,
{
    if i < 0 || i >= v.len() || v[i].id.0 >= fid.0 {
        0
    } else {
        1 + older_prefix(v, fid, i + 1)
    }
}

proof fn lemma_older_prefix(v: Seq<AddonFile>, fid: FileID, i: int)
    requires
        0 <= i <= v.len(),
    ensures
        0 <= older_prefix(v, fid, i) <= v.len() - i,
    decreases v.len() - i,
{
    if i < v.len() && v[i].id.0 < fid.0 {
        lemma_older_prefix(v, fid, i + 1);
    }
}

/// Where the versions eligible for an update start: all of them without an installed version
/// or where downgrades are allowed, else from the installed one on.
pub open spec fn update_start(v: Seq<AddonFile>, installed: Option<FileID>, allow_downgrade: bool) -> int {
    match installed {
        Some(fid) => if allow_downgrade { 0 } else { older_prefix(v, fid, 0) },
        None => 0,
    }
}

pub open spec fn is_installed_file(installed: Option<FileID>, id: FileID) -> bool {
    match installed {
        Some(fid) => fid == id,
        None => false,
    }
}

/// The version to update to: the channel's choice among the eligible versions, unless it is
/// the installed one.
pub fn find_version_update<'a>(
    versions: &'a [AddonFile],
    installed: Option<FileID>,
    conf: &Conf,
    blacklist: Option<&str>,
    release_type: ReleaseTypeMode,
    allow_downgrade: bool,
    positive_negative_in_filename: bool,
) -> (r: Option<&'a AddonFile>)
    requires
        conf.wf(),
    ensures
        ({
            let s = update_start(versions@, installed, allow_downgrade);
            let w = versions@.subrange(s, versions@.len() as int);
            let pick = select_spec(release_type, w, conf.passing(w, opt_view(blacklist), positive_negative_in_filename));
            match r {
                Some(f) => pick matches Some(j) && 0 <= j < w.len() && w[j] == *f
                    && !is_installed_file(installed, f.id),
                None => pick is None || (pick matches Some(j) && 0 <= j < w.len()
                    && is_installed_file(installed, w[j].id)),
            }
        }),
{
    let mut current: usize = 0;
    let start: usize = match installed {
        Some(fid) => {
            proof {
                lemma_older_prefix(versions@, fid, 0);
            }
            while current < versions.len() && versions[current].id.0 < fid.0
                invariant
                    current <= versions@.len(),
                    older_prefix(versions@, fid, 0) == current + older_prefix(versions@, fid, current as int),
                decreases versions@.len() - current,
            {
                current = current + 1;
            }
            if allow_downgrade { 0 } else { current }
        },
        None => 0,
    };
    let w = vstd::slice::slice_subrange(versions, start, versions.len());
    match release_type.pick_version(w, conf, blacklist, positive_negative_in_filename) {
        Some(f) => {
            match installed {
                Some(fid) => {
                    if f.id == fid {
                        return None;
                    }
                },
                None => {},
            }
            Some(f)
        },
        None => None,
    }
}

/// A difference between the installed file's record and the catalog's.
#[derive(Clone, Copy, Debug, PartialEq, Eq, Structural)]
pub enum Discrepancy {
    /// The file's stability tier changed online.
    ReleaseType,
    /// The online file requires an addon that the installed record does not.
    RequiredDependencies,
    /// The installed file is not listed online any more; it was put among the versions.
    NotOnline,
}

/// Whether `new` requires an addon that `old` does not.
pub open spec fn adds_required(old: Seq<crate::addon::Dependency>, new: Seq<crate::addon::Dependency>) -> bool {
    exists|j: int| 0 <= j < new.len() && crate::addon::dep_kind(#[trigger] new[j]) == KIND_REQUIRED && !old.contains(new[j])
}

/// The first position holding a file newer than `fid`, or the end.
pub open spec fn insert_slot(v: Seq<AddonFile>, fid: FileID) -> int {
    choose_first_newer(v, fid, 0)
}

pub open spec fn choose_first_newer(v: Seq<AddonFile>, fid: FileID, i: int) -> int
    decreases v.len() - i,
{
    if i < 0 || i >= v.len() {
        v.len() as int
    } else if v[i].id.0 > fid.0 {
        i
    } else {
        choose_first_newer(v, fid, i + 1)
    }
}

proof fn lemma_first_newer(v: Seq<AddonFile>, fid: FileID, i: int)
    requires
        0 <= i <= v.len(),
    ensures
        i <= choose_first_newer(v, fid, i) <= v.len(),
    decreases v.len() - i,
{
    if i < v.len() && v[i].id.0 <= fid.0 {
        lemma_first_newer(v, fid, i + 1);
    }
}

/// Compares the installed file with the catalog's versions: reports what differs and, where
/// the installed file is not listed, inserts a copy of it in id order.
pub fn fix_discrepancy(versions: &mut Vec<AddonFile>, installed: &AddonFile) -> (r: Vec<Discrepancy>)
    ensures
        (exists|i: int| 0 <= i < old(versions)@.len() && #[trigger] old(versions)@[i].id == installed.id)
            ==> final(versions)@ == old(versions)@ && !r@.contains(Discrepancy::NotOnline),
        forall|i: int| 0 <= i < old(versions)@.len() && #[trigger] old(versions)@[i].id == installed.id
            && (forall|j: int| 0 <= j < i ==> old(versions)@[j].id != installed.id) ==> {
            &&& (r@.contains(Discrepancy::ReleaseType) <==> old(versions)@[i].release_type != installed.release_type)
            &&& (r@.contains(Discrepancy::RequiredDependencies) <==> adds_required(installed.dependencies@, old(versions)@[i].dependencies@))
        },
        !(exists|i: int| 0 <= i < old(versions)@.len() && #[trigger] old(versions)@[i].id == installed.id) ==> {
            let k = insert_slot(old(versions)@, installed.id);
            &&& final(versions)@.len() == old(versions)@.len() + 1
            &&& final(versions)@.subrange(0, k) == old(versions)@.subrange(0, k)
            &&& final(versions)@[k].same_as(installed)
            &&& final(versions)@.subrange(k + 1, final(versions)@.len() as int) == old(versions)@.subrange(k, old(versions)@.len() as int)
            &&& r@ == seq![Discrepancy::NotOnline]
        },
{
    let mut out: Vec<Discrepancy> = Vec::new();
    let mut i: usize = 0;
    while i < versions.len()
        invariant
            i <= versions@.len(),
            versions@ == old(versions)@,
            out@.len() == 0,
            forall|k: int| 0 <= k < i ==> #[trigger] versions@[k].id != installed.id,
        decreases versions@.len() - i,
    {
        if versions[i].id == installed.id {
            let remote = &versions[i];
            let changed = remote.release_type != installed.release_type;
            if changed {
                out.push(Discrepancy::ReleaseType);
            }
            let ghost first = out@;
            let added = installed.dependencies.new_required(&remote.dependencies);
            if added {
                out.push(Discrepancy::RequiredDependencies);
            }
            proof {
                crate::channel::lemma_push_contains(first, Discrepancy::RequiredDependencies, Discrepancy::ReleaseType);
                crate::channel::lemma_push_contains(first, Discrepancy::RequiredDependencies, Discrepancy::RequiredDependencies);
                crate::channel::lemma_push_contains(Seq::<Discrepancy>::empty(), Discrepancy::ReleaseType, Discrepancy::ReleaseType);
                crate::channel::lemma_push_contains(Seq::<Discrepancy>::empty(), Discrepancy::ReleaseType, Discrepancy::RequiredDependencies);
                assert(!Seq::<Discrepancy>::empty().contains(Discrepancy::ReleaseType));
                assert(!Seq::<Discrepancy>::empty().contains(Discrepancy::RequiredDependencies));
                assert(first.len() == 0 ==> first =~= Seq::<Discrepancy>::empty());
                assert(first.len() == 1 ==> first =~= Seq::<Discrepancy>::empty().push(Discrepancy::ReleaseType));
            }
            assert(!out@.contains(Discrepancy::NotOnline)) by {
                assert forall|k: int| 0 <= k < out@.len() implies out@[k] != Discrepancy::NotOnline by {
                    assert(out@[k] == Discrepancy::ReleaseType || out@[k] == Discrepancy::RequiredDependencies);
                }
            }
            return out;
        }
        i = i + 1;
    }
    let mut slot: usize = 0;
    proof {
        lemma_first_newer(versions@, installed.id, 0);
    }
    while slot < versions.len() && versions[slot].id.0 <= installed.id.0
        invariant
            slot <= versions@.len(),
            versions@ == old(versions)@,
            out@.len() == 0,
            choose_first_newer(versions@, installed.id, 0) == choose_first_newer(versions@, installed.id, slot as int),
        decreases versions@.len() - slot,
    {
        slot = slot + 1;
    }
    let ghost before = versions@;
    versions.insert(slot, installed.duplicate());
    assert(versions@.subrange(0, slot as int) =~= before.subrange(0, slot as int));
    assert(versions@.subrange(slot as int + 1, versions@.len() as int) =~= before.subrange(slot as int, before.len() as int));
    out.push(Discrepancy::NotOnline);
    assert(out@ =~= seq![Discrepancy::NotOnline]);
    out
}

/// Whether some installed record's file requires `id`.
pub open spec fn has_dependent(addons: Seq<LocalAddon>, id: AddonID) -> bool {
    exists|i: int| 0 <= i < addons.len() && (#[trigger] addons[i]).installed is Some
        && kind_ids(addons[i].installed->0.dependencies@, KIND_REQUIRED).contains(id)
}

/// Some installed record of `x` has a file that requires `id`.
pub open spec fn depends_on(addons: Seq<LocalAddon>, x: AddonID, id: AddonID) -> bool {
    exists|i: int| 0 <= i < addons.len() && (#[trigger] addons[i]).id == x
        && addons[i].installed is Some && kind_ids(addons[i].installed->0.dependencies@, KIND_REQUIRED).contains(id)
}

/// Some record of `x` is installed, was not installed by hand and is required by nothing.
pub open spec fn removable(addons: Seq<LocalAddon>, x: AddonID) -> bool {
    exists|i: int| 0 <= i < addons.len() && (#[trigger] addons[i]).id == x
        && addons[i].installed is Some && !addons[i].manually_installed && !has_dependent(addons, x)
}

fn requires_id(deps: &Vec<AddonID>, id: AddonID) -> (r: bool)
    ensures
        r == deps@.contains(id),
{
    let mut k: usize = 0;
    while k < deps.len()
        invariant
            k <= deps@.len(),
            forall|m: int| 0 <= m < k ==> deps@[m] != id,
        decreases deps@.len() - k,
    {
        if deps[k] == id {
            assert(deps@[k as int] == id);
            return true;
        }
        k = k + 1;
    }
    false
}

/// The installed addons whose file requires `id`, in repository order.
pub fn has_dependents(id: AddonID, addons: &LocalAddons) -> (r: Vec<AddonID>)
    ensures
        forall|k: int| 0 <= k < r@.len() ==> depends_on(addons@, #[trigger] r@[k], id),
        forall|i: int| 0 <= i < addons@.len() && (#[trigger] addons@[i]).installed is Some
            && kind_ids(addons@[i].installed->0.dependencies@, KIND_REQUIRED).contains(id) ==> r@.contains(addons@[i].id),
{
    let mut dest: Vec<AddonID> = Vec::new();
    let mut i: usize = 0;
    while i < addons.0.len()
        invariant
            i <= addons@.len(),
            forall|k: int| 0 <= k < dest@.len() ==> depends_on(addons@, #[trigger] dest@[k], id),
            forall|j: int| 0 <= j < i && (#[trigger] addons@[j]).installed is Some
                && kind_ids(addons@[j].installed->0.dependencies@, KIND_REQUIRED).contains(id) ==> dest@.contains(addons@[j].id),
        decreases addons@.len() - i,
    {
        let a = &addons.0[i];
        match &a.installed {
            Some(file) => {
                let req = file.dependencies.iter_required();
                if requires_id(&req, id) {
                    let ghost prev = dest@;
                    dest.push(a.id);
                    assert(dest@[prev.len() as int] == a.id);
                    assert forall|j: int| 0 <= j < i + 1 && (#[trigger] addons@[j]).installed is Some
                        && kind_ids(addons@[j].installed->0.dependencies@, KIND_REQUIRED).contains(id) implies dest@.contains(addons@[j].id) by {
                        if j < i {
                            let m = choose|m: int| 0 <= m < prev.len() && prev[m] == addons@[j].id;
                            assert(dest@[m] == addons@[j].id);
                        }
                    }
                }
            },
            None => {},
        }
        i = i + 1;
    }
    dest
}

/// The installed addons that were installed only as dependencies and that no installed addon
/// requires any more.
pub fn autoremovable(addons: &LocalAddons) -> (r: Vec<AddonID>)
    ensures
        forall|k: int| 0 <= k < r@.len() ==> removable(addons@, #[trigger] r@[k]),
        forall|i: int| 0 <= i < addons@.len() && (#[trigger] addons@[i]).installed is Some && !addons@[i].manually_installed
            && !has_dependent(addons@, addons@[i].id) ==> r@.contains(addons@[i].id),
{
    let mut dest: Vec<AddonID> = Vec::new();
    let mut i: usize = 0;
    while i < addons.0.len()
        invariant
            i <= addons@.len(),
            forall|k: int| 0 <= k < dest@.len() ==> removable(addons@, #[trigger] dest@[k]),
            forall|j: int| 0 <= j < i && (#[trigger] addons@[j]).installed is Some && !addons@[j].manually_installed
                && !has_dependent(addons@, addons@[j].id) ==> dest@.contains(addons@[j].id),
        decreases addons@.len() - i,
    {
        let a = &addons.0[i];
        if a.installed.is_some() && !a.manually_installed {
            let deps = has_dependents(a.id, addons);
            if deps.len() == 0 {
                proof {
                    if has_dependent(addons@, a.id) {
                        let j = choose|j: int| 0 <= j < addons@.len() && (#[trigger] addons@[j]).installed is Some
                            && kind_ids(addons@[j].installed->0.dependencies@, KIND_REQUIRED).contains(a.id);
                        assert(deps@.contains(addons@[j].id));
                    }
                }
                let ghost prev = dest@;
                dest.push(a.id);
                assert(dest@[prev.len() as int] == a.id);
                assert forall|j: int| 0 <= j < i + 1 && (#[trigger] addons@[j]).installed is Some && !addons@[j].manually_installed
                    && !has_dependent(addons@, addons@[j].id) implies dest@.contains(addons@[j].id) by {
                    if j < i {
                        let m = choose|m: int| 0 <= m < prev.len() && prev[m] == addons@[j].id;
                        assert(dest@[m] == addons@[j].id);
                    }
                }
            } else {
                proof {
                    assert(depends_on(addons@, deps@[0], a.id));
                    assert(has_dependent(addons@, a.id));
                }
            }
        }
        i = i + 1;
    }
    dest
}

/// Why a channel text was refused.
#[derive(Clone, Copy, Debug, PartialEq, Eq, Structural)]
pub enum ChannelError {
    /// A character other than the letters a, b, r.
    BadLetter(char),
}

/// Reads a channel such as `rb` or `A`: `r`, `b` and `a` (either case) accept release, beta
/// and alpha files; accepting none means accepting all.
pub fn decode_channel(s: &str) -> (r: Result<ReleaseTypeMode, ChannelError>)
    ensures
        (forall|i: int| 0 <= i < trim_of(s@).len() ==> channel_letter(#[trigger] trim_of(s@)[i])) ==> (r matches Ok(m) && {
            let t = trim_of(s@);
            let rel = t.contains('r') || t.contains('R');
            let bet = t.contains('b') || t.contains('B');
            let alp = t.contains('a') || t.contains('A');
            if rel || bet || alp { m == (ReleaseTypeMode { release: rel, beta: bet, alpha: alp }) }
            else { m == (ReleaseTypeMode { release: true, beta: true, alpha: true }) }
        }),
        !(forall|i: int| 0 <= i < trim_of(s@).len() ==> channel_letter(#[trigger] trim_of(s@)[i])) ==> r is Err,
{
    let t = trimmed(s);
    let c = chars_of(t.as_str());
    let mut a = false;
    let mut b = false;
    let mut rr = false;
    let mut i: usize = 0;
    while i < c.len()
        invariant
            c@ == trim_of(s@),
            i <= c@.len(),
            forall|k: int| 0 <= k < i ==> channel_letter(#[trigger] c@[k]),
            a == (c@.subrange(0, i as int).contains('a') || c@.subrange(0, i as int).contains('A')),
            b == (c@.subrange(0, i as int).contains('b') || c@.subrange(0, i as int).contains('B')),
            rr == (c@.subrange(0, i as int).contains('r') || c@.subrange(0, i as int).contains('R')),
        decreases c@.len() - i,
    {
        let x = c[i];
        let ghost pre = c@.subrange(0, i as int);
        assert(c@.subrange(0, i as int + 1) =~= pre.push(x));
        proof {
            crate::channel::lemma_push_contains(pre, x, 'a');
            crate::channel::lemma_push_contains(pre, x, 'A');
            crate::channel::lemma_push_contains(pre, x, 'b');
            crate::channel::lemma_push_contains(pre, x, 'B');
            crate::channel::lemma_push_contains(pre, x, 'r');
            crate::channel::lemma_push_contains(pre, x, 'R');
        }
        if x == 'a' || x == 'A' {
            a = true;
        } else if x == 'b' || x == 'B' {
            b = true;
        } else if x == 'r' || x == 'R' {
            rr = true;
        } else {
            return Err(ChannelError::BadLetter(x));
        }
        i = i + 1;
    }
    assert(c@.subrange(0, i as int) =~= c@);
    Ok(ReleaseTypeMode::new(rr, b, a))
}

pub open spec fn channel_letter(c: char) -> bool {
    c == 'a' || c == 'A' || c == 'b' || c == 'B' || c == 'r' || c == 'R'
}

/// The tier that command line flags ask for: alpha over beta over release.
pub fn release_type_from_flags(a: bool, b: bool, r: bool) -> (t: Option<ReleaseType>)
    ensures
        t == if a { Some(ReleaseType::Alpha) } else if b { Some(ReleaseType::Beta) } else if r {
            Some(ReleaseType::Release)
        } else {
            None::<ReleaseType>
        },
{
    if a {
        Some(ReleaseType::Alpha)
    } else if b {
        Some(ReleaseType::Beta)
    } else if r {
        Some(ReleaseType::Release)
    } else {
        None
    }
}

} // verus!
