use vstd::prelude::*;

use crate::addon::{has_id, kind_ids, AddonFile, AddonID, AddonSlug, LocalAddon, LocalAddons, UpdateOpt, KIND_REQUIRED};
use crate::channel::{lemma_select_nonempty, select_spec, ReleaseTypeMode};
use crate::conf::Conf;

verus! {

/// What the catalog said about an addon.
#[derive(Clone, Debug)]
pub struct AddonInfo {
    pub id: AddonID,
    pub name: String,
    pub slug: AddonSlug,
}

/// The catalog's answer to a request for an addon's metadata.
#[derive(Clone, Debug)]
pub enum InfoResult {
    Found(AddonInfo),
    NotFound,
    Error(String),
}

/// The catalog's answer to a request for an addon's files, ascending by file id.
#[derive(Clone, Debug)]
pub enum FilesResult {
    Found(Vec<AddonFile>),
    NotFound,
    Error(String),
}

/// The catalog's answers for one addon.
#[derive(Clone, Debug)]
pub struct CatalogEntry {
    pub id: AddonID,
    pub info: InfoResult,
    pub files: FilesResult,
}

/// The answers fetched so far.
#[derive(Clone, Debug)]
pub struct Catalog {
    pub entries: Vec<CatalogEntry>,
}

/// Why dependencies could not be resolved.
#[derive(Clone, Copy, Debug, PartialEq, Eq, Structural)]
pub enum DepsError {
    /// The catalog has not been asked about this addon yet.
    NeedFetch(AddonID),
    /// The catalog does not know this addon.
    NotAvailable(AddonID),
    /// Asking the catalog about this addon failed.
    FetchFailed(AddonID),
    /// No file of this addon supports the game version.
    NoVersionForGame(AddonID),
    /// No file of this addon passes the filter.
    NoVersionForFilter(AddonID),
    /// The addon requires itself through required dependencies.
    Cycle(AddonID),
}

pub open spec fn catalog_ids(c: Seq<CatalogEntry>) -> Seq<AddonID> {
    c.map_values(|e: CatalogEntry| e.id)
}

pub open spec fn string_opt_view(b: Option<String>) -> Option<Seq<char>> {
    match b {
        Some(x) => Some(x@),
        None => None,
    }
}

/// Whether the local set has an installed file for this addon.
pub open spec fn locally_installed(installed: Seq<LocalAddon>, id: AddonID) -> bool {
    exists|i: int| 0 <= i < installed.len() && #[trigger] installed[i].id == id && installed[i].installed is Some
}

pub open spec fn queue_has(q: Seq<LocalAddon>, id: AddonID) -> bool {
    exists|k: int| 0 <= k < q.len() && #[trigger] q[k].id == id
}

/// A dependency is taken care of: installed, planned, or installed after the plan.
pub open spec fn dep_covered(installed: Seq<LocalAddon>, q: Seq<LocalAddon>, res: Seq<AddonID>, d: AddonID) -> bool {
    locally_installed(installed, d) || queue_has(q, d) || res.contains(d)
}

/// A planned record holds the file that its own channel and blacklist select from the
/// catalog's files for it, and its addon is not installed yet.
pub open spec fn entry_ok(conf: Conf, catalog: Seq<CatalogEntry>, installed: Seq<LocalAddon>, in_name: bool, e: LocalAddon) -> bool {
    &&& !locally_installed(installed, e.id)
    &&& e.installed is Some
    &&& exists|k: int| 0 <= k < catalog.len() && (#[trigger] catalog[k]).id == e.id
        && selected_from(conf, catalog[k], in_name, e)
}

/// The record holds the file selected from the entry's files under the record's settings.
pub open spec fn selected_from(conf: Conf, ce: CatalogEntry, in_name: bool, e: LocalAddon) -> bool {
    match ce.files {
        FilesResult::Found(v) => exists|j: int|
            select_spec(e.channel, v@, conf.passing(v@, string_opt_view(e.version_blacklist), in_name)) == Some(j)
                && 0 <= j < v@.len() && (#[trigger] v@[j]).same_as(&e.installed->0),
        _ => false,
    }
}

/// A planned record's settings: the caller's, or, where the local set keeps a record of the
/// addon, its channel widened by the caller's and its own blacklist and manual flag.
pub open spec fn settings_ok(installed: Seq<LocalAddon>, channel: ReleaseTypeMode, blacklist: Option<String>,
    update_opt: UpdateOpt, e: LocalAddon) -> bool {
    &&& e.update_opt == update_opt
    &&& if has_id(installed, e.id) {
        exists|i: int| 0 <= i < installed.len() && (#[trigger] installed[i]).id == e.id
            && e.channel == channel.union_spec(installed[i].channel)
            && e.version_blacklist == installed[i].version_blacklist
            && e.manually_installed == installed[i].manually_installed
    } else {
        &&& e.channel == channel
        &&& e.version_blacklist == blacklist
        &&& !e.manually_installed
    }
}

pub open spec fn settings_all(installed: Seq<LocalAddon>, channel: ReleaseTypeMode, blacklist: Option<String>,
    update_opt: UpdateOpt, q: Seq<LocalAddon>, from: int) -> bool {
    forall|p: int| from <= p < q.len() ==> settings_ok(installed, channel, blacklist, update_opt, #[trigger] q[p])
}

proof fn lemma_settings_grow(installed: Seq<LocalAddon>, channel: ReleaseTypeMode, blacklist: Option<String>,
    update_opt: UpdateOpt, q1: Seq<LocalAddon>, q2: Seq<LocalAddon>, from: int)
    requires
        settings_all(installed, channel, blacklist, update_opt, q1, from),
        is_prefix(q1, q2),
        0 <= from,
    ensures
        forall|p: int| from <= p < q1.len() ==> settings_ok(installed, channel, blacklist, update_opt, #[trigger] q2[p]),
{
    assert forall|p: int| from <= p < q1.len() implies settings_ok(installed, channel, blacklist, update_opt, #[trigger] q2[p]) by {
        assert(q2.subrange(0, q1.len() as int)[p] == q2[p]);
    }
}

/// Post-order: every required dependency of the planned record at `p` is installed, installed
/// after the plan (`after`), or planned before it.
pub open spec fn entry_closed(installed: Seq<LocalAddon>, q: Seq<LocalAddon>, after: Seq<AddonID>, p: int) -> bool {
    forall|d: AddonID| kind_ids(q[p].installed->0.dependencies@, KIND_REQUIRED).contains(d)
        ==> #[trigger] covered_before(installed, q, after, d, p)
}

/// `d` is installed, installed after the plan, or planned before position `p`.
pub open spec fn covered_before(installed: Seq<LocalAddon>, q: Seq<LocalAddon>, after: Seq<AddonID>, d: AddonID, p: int) -> bool {
    locally_installed(installed, d) || after.contains(d) || exists|k: int| 0 <= k < p && #[trigger] q[k].id == d
}

pub open spec fn ids_distinct(q: Seq<LocalAddon>) -> bool {
    forall|a: int, b: int| 0 <= a < q.len() && 0 <= b < q.len() && a != b ==> #[trigger] q[a].id != #[trigger] q[b].id
}

/// The planned records at positions `from..to` are sound and in post-order.
pub open spec fn plan_ok(conf: Conf, catalog: Seq<CatalogEntry>, installed: Seq<LocalAddon>, in_name: bool,
    q: Seq<LocalAddon>, from: int, to: int, after: Seq<AddonID>) -> bool {
    forall|p: int| from <= p < to ==> entry_ok(conf, catalog, installed, in_name, #[trigger] q[p])
        && entry_closed(installed, q, after, p)
}

/// The catalog found the planned addon's metadata and files, some file supports the game version
/// and some passes the caller's filter.
pub open spec fn entry_checked(conf: Conf, catalog: Seq<CatalogEntry>, blacklist: Option<Seq<char>>, in_name: bool,
    e: LocalAddon) -> bool {
    exists|k: int| 0 <= k < catalog.len() && (#[trigger] catalog[k]).id == e.id && catalog[k].info is Found
        && files_usable(conf, catalog[k].files, blacklist, in_name)
}

pub open spec fn files_usable(conf: Conf, files: FilesResult, blacklist: Option<Seq<char>>, in_name: bool) -> bool {
    match files {
        FilesResult::Found(v) => (exists|i: int| 0 <= i < v@.len() && conf.game_accepts(#[trigger] v@[i]))
            && (exists|i: int| 0 <= i < v@.len() && conf.passes(#[trigger] v@[i], blacklist, in_name)),
        _ => false,
    }
}

pub open spec fn checked_all(conf: Conf, catalog: Seq<CatalogEntry>, blacklist: Option<Seq<char>>, in_name: bool,
    q: Seq<LocalAddon>, from: int) -> bool {
    forall|p: int| from <= p < q.len() ==> entry_checked(conf, catalog, blacklist, in_name, #[trigger] q[p])
}

/// Every planned record at `from..` was asked for in `deps` or is required by a record planned
/// after it, so each is reachable from `deps` through required edges.
pub open spec fn reached(deps: Seq<AddonID>, q: Seq<LocalAddon>, from: int) -> bool {
    forall|p: int| from <= p < q.len() ==> deps.contains((#[trigger] q[p]).id)
        || exists|k: int| p < k < q.len() && kind_ids(q[k].installed->0.dependencies@, KIND_REQUIRED).contains(#[trigger] q[p].id)
}

pub open spec fn is_prefix<T>(a: Seq<T>, b: Seq<T>) -> bool {
    a.len() <= b.len() && b.subrange(0, a.len() as int) == a
}

proof fn lemma_plan_grows(conf: Conf, catalog: Seq<CatalogEntry>, installed: Seq<LocalAddon>, in_name: bool,
    q1: Seq<LocalAddon>, q2: Seq<LocalAddon>, from: int, to: int, after: Seq<AddonID>)
    requires
        plan_ok(conf, catalog, installed, in_name, q1, from, to, after),
        is_prefix(q1, q2),
        0 <= from,
        to <= q1.len(),
    ensures
        plan_ok(conf, catalog, installed, in_name, q2, from, to, after),
{
    assert forall|p: int| from <= p < to implies entry_ok(conf, catalog, installed, in_name, #[trigger] q2[p])
        && entry_closed(installed, q2, after, p) by {
        assert(q2[p] == q1[p]) by {
            assert(q2.subrange(0, q1.len() as int)[p] == q2[p]);
        }
        assert forall|d: AddonID| kind_ids(q2[p].installed->0.dependencies@, KIND_REQUIRED).contains(d)
            implies #[trigger] covered_before(installed, q2, after, d, p) by {
            assert(covered_before(installed, q1, after, d, p));
            if exists|k: int| 0 <= k < p && #[trigger] q1[k].id == d {
                let k = choose|k: int| 0 <= k < p && #[trigger] q1[k].id == d;
                assert(q2.subrange(0, q1.len() as int)[k] == q2[k]);
                assert(q2[k].id == d);
            }
        }
    }
}

proof fn lemma_checked_grow(conf: Conf, catalog: Seq<CatalogEntry>, blacklist: Option<Seq<char>>, in_name: bool,
    q1: Seq<LocalAddon>, q2: Seq<LocalAddon>, from: int)
    requires
        checked_all(conf, catalog, blacklist, in_name, q1, from),
        is_prefix(q1, q2),
        0 <= from,
    ensures
        forall|p: int| from <= p < q1.len() ==> entry_checked(conf, catalog, blacklist, in_name, #[trigger] q2[p]),
{
    assert forall|p: int| from <= p < q1.len() implies entry_checked(conf, catalog, blacklist, in_name, #[trigger] q2[p]) by {
        assert(q2.subrange(0, q1.len() as int)[p] == q2[p]);
    }
}

proof fn lemma_reached_grow(deps: Seq<AddonID>, q1: Seq<LocalAddon>, q2: Seq<LocalAddon>, from: int)
    requires
        reached(deps, q1, from),
        is_prefix(q1, q2),
        0 <= from,
    ensures
        forall|p: int| from <= p < q1.len() ==> deps.contains((#[trigger] q2[p]).id)
            || exists|k: int| p < k < q2.len() && kind_ids(q2[k].installed->0.dependencies@, KIND_REQUIRED).contains(#[trigger] q2[p].id),
{
    assert forall|p: int| from <= p < q1.len() implies deps.contains((#[trigger] q2[p]).id)
        || exists|k: int| p < k < q2.len() && kind_ids(q2[k].installed->0.dependencies@, KIND_REQUIRED).contains(#[trigger] q2[p].id) by {
        assert(q2.subrange(0, q1.len() as int)[p] == q2[p]);
        if !deps.contains(q1[p].id) {
            let k = choose|k: int| p < k < q1.len() && kind_ids(q1[k].installed->0.dependencies@, KIND_REQUIRED).contains(#[trigger] q1[p].id);
            assert(q2.subrange(0, q1.len() as int)[k] == q2[k]);
        }
    }
}

/// A dependency stays taken care of as the plan grows.
proof fn lemma_covered_grows(installed: Seq<LocalAddon>, q1: Seq<LocalAddon>, q2: Seq<LocalAddon>, res: Seq<AddonID>, d: AddonID)
    requires
        dep_covered(installed, q1, res, d),
        is_prefix(q1, q2),
    ensures
        dep_covered(installed, q2, res, d),
{
    if queue_has(q1, d) {
        let k = choose|k: int| 0 <= k < q1.len() && #[trigger] q1[k].id == d;
        assert(q2.subrange(0, q1.len() as int)[k] == q2[k]);
        assert(q2[k].id == d);
    }
}

/// What the catalog said that makes resolution fail with `e`.
pub open spec fn error_explained(conf: Conf, catalog: Seq<CatalogEntry>, blacklist: Option<Seq<char>>, in_name: bool,
    e: DepsError) -> bool {
    match e {
        DepsError::NeedFetch(id) => !catalog_ids(catalog).contains(id),
        DepsError::Cycle(id) => catalog_ids(catalog).contains(id),
        DepsError::NotAvailable(id) => exists|k: int| 0 <= k < catalog.len() && (#[trigger] catalog[k]).id == id
            && (catalog[k].info is NotFound || catalog[k].files is NotFound),
        DepsError::FetchFailed(id) => exists|k: int| 0 <= k < catalog.len() && (#[trigger] catalog[k]).id == id
            && (catalog[k].info is Error || catalog[k].files is Error),
        DepsError::NoVersionForGame(id) => exists|k: int| 0 <= k < catalog.len() && (#[trigger] catalog[k]).id == id
            && no_file_for_game(conf, catalog[k].files),
        DepsError::NoVersionForFilter(id) => exists|k: int| 0 <= k < catalog.len() && (#[trigger] catalog[k]).id == id
            && no_file_for_filter(conf, catalog[k].files, blacklist, in_name),
    }
}

pub open spec fn no_file_for_game(conf: Conf, files: FilesResult) -> bool {
    match files {
        FilesResult::Found(v) => forall|i: int| 0 <= i < v@.len() ==> !conf.game_accepts(#[trigger] v@[i]),
        _ => false,
    }
}

pub open spec fn no_file_for_filter(conf: Conf, files: FilesResult, blacklist: Option<Seq<char>>, in_name: bool) -> bool {
    match files {
        FilesResult::Found(v) => forall|i: int| 0 <= i < v@.len() ==> !conf.passes(#[trigger] v@[i], blacklist, in_name),
        _ => false,
    }
}

/// Distinct ids taken from a list of length `n` are at most `n`.
proof fn lemma_distinct_within(s: Seq<AddonID>, c: Seq<AddonID>)
    requires
        s.no_duplicates(),
        forall|i: int| 0 <= i < s.len() ==> c.contains(#[trigger] s[i]),
    ensures
        s.len() <= c.len(),
{
    s.unique_seq_to_set();
    c.lemma_cardinality_of_set();
    assert(s.to_set().subset_of(c.to_set())) by {
        assert forall|x: AddonID| s.to_set().contains(x) implies c.to_set().contains(x) by {
            let i = choose|i: int| 0 <= i < s.len() && s[i] == x;
            assert(c.contains(s[i]));
        }
    }
    vstd::set_lib::lemma_len_subset(s.to_set(), c.to_set());
}

pub(crate) fn find_entry(catalog: &Catalog, id: AddonID) -> (r: Option<usize>)
    ensures
        match r {
            Some(k) => k < catalog.entries@.len() && catalog.entries@[k as int].id == id,
            None => !catalog_ids(catalog.entries@).contains(id),
        },
{
    let mut k: usize = 0;
    while k < catalog.entries.len()
        invariant
            k <= catalog.entries@.len(),
            forall|m: int| 0 <= m < k ==> #[trigger] catalog.entries@[m].id != id,
        decreases catalog.entries@.len() - k,
    {
        if catalog.entries[k].id == id {
            return Some(k);
        }
        k = k + 1;
    }
    proof {
        if catalog_ids(catalog.entries@).contains(id) {
            let m = choose|m: int| 0 <= m < catalog_ids(catalog.entries@).len() && catalog_ids(catalog.entries@)[m] == id;
            assert(catalog.entries@[m].id == id);
        }
    }
    None
}

fn queue_contains(q: &Vec<LocalAddon>, id: AddonID) -> (r: bool)
    ensures
        r == queue_has(q@, id),
{
    let mut k: usize = 0;
    while k < q.len()
        invariant
            k <= q@.len(),
            forall|m: int| 0 <= m < k ==> #[trigger] q@[m].id != id,
        decreases q@.len() - k,
    {
        if q[k].id == id {
            return true;
        }
        k = k + 1;
    }
    false
}

fn ids_contain(v: &Vec<AddonID>, id: AddonID) -> (r: bool)
    ensures
        r == v@.contains(id),
{
    let mut k: usize = 0;
    while k < v.len()
        invariant
            k <= v@.len(),
            forall|m: int| 0 <= m < k ==> v@[m] != id,
        decreases v@.len() - k,
    {
        if v[k] == id {
            assert(v@[k as int] == id);
            return true;
        }
        k = k + 1;
    }
    false
}

fn copy_opt(s: &Option<String>) -> (r: Option<String>)
    ensures
        r == *s,
{
    match s {
        Some(v) => Some(v.clone()),
        None => None,
    }
}

fn any_game_version(conf: &Conf, v: &Vec<AddonFile>) -> (r: bool)
    requires
        conf.wf(),
    ensures
        r == exists|i: int| 0 <= i < v@.len() && conf.game_accepts(#[trigger] v@[i]),
{
    let mut i: usize = 0;
    while i < v.len()
        invariant
            conf.wf(),
            i <= v@.len(),
            forall|k: int| 0 <= k < i ==> !conf.game_accepts(#[trigger] v@[k]),
        decreases v@.len() - i,
    {
        if conf.game_version.matches(v[i].game_version.as_slice()) {
            return true;
        }
        i = i + 1;
    }
    false
}

fn any_passes(conf: &Conf, v: &Vec<AddonFile>, blacklist: Option<&str>, in_name: bool) -> (r: bool)
    requires
        conf.wf(),
    ensures
        r == exists|i: int| 0 <= i < v@.len() && conf.passes(#[trigger] v@[i], crate::conf::opt_view(blacklist), in_name),
{
    let mut i: usize = 0;
    while i < v.len()
        invariant
            conf.wf(),
            i <= v@.len(),
            forall|k: int| 0 <= k < i ==> !conf.passes(#[trigger] v@[k], crate::conf::opt_view(blacklist), in_name),
        decreases v@.len() - i,
    {
        if conf.filter_addon_file(&v[i], blacklist, in_name) {
            return true;
        }
        i = i + 1;
    }
    false
}

fn as_opt_str(s: &Option<String>) -> (r: Option<&str>)
    ensures
        crate::conf::opt_view(r) == string_opt_view(*s),
{
    match s {
        Some(v) => Some(v.as_str()),
        None => None,
    }
}

/// Plans the installation of the required dependencies `deps` that are neither installed nor
/// planned yet, each after its own dependencies (post-order), from the catalog's answers.
/// Addons in `after` are installed after the plan and are skipped; `resolving` holds the addons
/// whose dependencies are being resolved, and meeting one of them again is a cycle.
pub fn collect_deps(
    installed: &LocalAddons,
    catalog: &Catalog,
    deps: &[AddonID],
    conf: &Conf,
    channel: ReleaseTypeMode,
    update_opt: UpdateOpt,
    version_blacklist: &Option<String>,
    positive_negative_in_filename: bool,
    after: &Vec<AddonID>,
    resolving: &mut Vec<AddonID>,
    install_queue: &mut Vec<LocalAddon>,
) -> (r: Result<(), DepsError>)
    requires
        conf.wf(),
        installed.wf(),
        old(resolving)@.no_duplicates(),
        forall|i: int| 0 <= i < old(resolving)@.len() ==> catalog_ids(catalog.entries@).contains(#[trigger] old(resolving)@[i]),
        ids_distinct(old(install_queue)@),
        forall|p: int| 0 <= p < old(install_queue)@.len() ==> !old(resolving)@.contains(#[trigger] old(install_queue)@[p].id),
    ensures
        final(resolving)@ == old(resolving)@,
        is_prefix(old(install_queue)@, final(install_queue)@),
        ids_distinct(final(install_queue)@),
        forall|p: int| 0 <= p < final(install_queue)@.len() ==> !old(resolving)@.contains(#[trigger] final(install_queue)@[p].id),
        forall|p: int| old(install_queue)@.len() <= p < final(install_queue)@.len()
            ==> !after@.contains(#[trigger] final(install_queue)@[p].id),
        r is Ok ==> plan_ok(*conf, catalog.entries@, installed@, positive_negative_in_filename, final(install_queue)@,
            old(install_queue)@.len() as int, final(install_queue)@.len() as int, after@),
        r is Ok ==> checked_all(*conf, catalog.entries@, string_opt_view(*version_blacklist), positive_negative_in_filename,
            final(install_queue)@, old(install_queue)@.len() as int),
        r is Ok ==> reached(deps@, final(install_queue)@, old(install_queue)@.len() as int),
        r is Ok ==> forall|k: int| 0 <= k < deps@.len() ==> dep_covered(installed@, final(install_queue)@, after@, #[trigger] deps@[k]),
        (forall|k: int| 0 <= k < deps@.len() ==> locally_installed(installed@, #[trigger] deps@[k]))
            ==> r is Ok && final(install_queue)@ == old(install_queue)@,
        settings_all(installed@, channel, *version_blacklist, update_opt, final(install_queue)@, old(install_queue)@.len() as int),
        r matches Err(e) ==> error_explained(*conf, catalog.entries@, string_opt_view(*version_blacklist),
            positive_negative_in_filename, e),
    decreases catalog.entries@.len() - old(resolving)@.len(),
{
    let ghost q0 = install_queue@;
    let ghost res0 = resolving@;
    let ghost cat = catalog.entries@;
    let ghost bl = string_opt_view(*version_blacklist);
    proof {
        lemma_distinct_within(res0, catalog_ids(cat));
        assert(q0.subrange(0, q0.len() as int) =~= q0);
    }
    let mut i: usize = 0;
    while i < deps.len()
        invariant
            conf.wf(),
            installed.wf(),
            cat == catalog.entries@,
            bl == string_opt_view(*version_blacklist),
            res0 == old(resolving)@,
            q0 == old(install_queue)@,
            resolving@ == res0,
            res0.no_duplicates(),
            forall|m: int| 0 <= m < res0.len() ==> catalog_ids(cat).contains(#[trigger] res0[m]),
            res0.len() <= cat.len(),
            i <= deps@.len(),
            is_prefix(q0, install_queue@),
            ids_distinct(install_queue@),
            forall|p: int| 0 <= p < install_queue@.len() ==> !res0.contains(#[trigger] install_queue@[p].id),
            forall|p: int| q0.len() <= p < install_queue@.len() ==> !after@.contains(#[trigger] install_queue@[p].id),
            plan_ok(*conf, cat, installed@, positive_negative_in_filename, install_queue@, q0.len() as int,
                install_queue@.len() as int, after@),
            checked_all(*conf, cat, bl, positive_negative_in_filename, install_queue@, q0.len() as int),
            reached(deps@, install_queue@, q0.len() as int),
            forall|k: int| 0 <= k < i ==> dep_covered(installed@, install_queue@, after@, #[trigger] deps@[k]),
            settings_all(installed@, channel, *version_blacklist, update_opt, install_queue@, q0.len() as int),
            (forall|k: int| 0 <= k < deps@.len() ==> locally_installed(installed@, #[trigger] deps@[k]))
                ==> install_queue@ == q0,
        decreases deps@.len() - i,
    {
        let dep_id = deps[i];
        if installed.is_installed(dep_id) {
            i = i + 1;
            continue;
        }
        if queue_contains(install_queue, dep_id) {
            i = i + 1;
            continue;
        }
        if ids_contain(after, dep_id) {
            i = i + 1;
            continue;
        }
        proof {
            assert(!locally_installed(installed@, deps@[i as int]));
        }
        if ids_contain(resolving, dep_id) {
            proof {
                let m = choose|m: int| 0 <= m < res0.len() && res0[m] == dep_id;
                assert(catalog_ids(cat).contains(res0[m]));
            }
            return Err(DepsError::Cycle(dep_id));
        }
        let mut z_channel = channel;
        let z_update_opt = update_opt;
        let mut z_manually_installed = false;
        let mut z_version_blacklist = copy_opt(version_blacklist);
        match installed.get(dep_id) {
            Some(local_dep) => {
                z_channel = z_channel.union(local_dep.channel);
                z_manually_installed = local_dep.manually_installed;
                z_version_blacklist = copy_opt(&local_dep.version_blacklist);
            },
            None => {},
        }
        let k = match find_entry(catalog, dep_id) {
            Some(k) => k,
            None => { return Err(DepsError::NeedFetch(dep_id)); },
        };
        let entry = &catalog.entries[k];
        assert(cat[k as int].id == dep_id);
        let dep_info = match &entry.info {
            InfoResult::Found(d) => d,
            InfoResult::NotFound => { return Err(DepsError::NotAvailable(dep_id)); },
            InfoResult::Error(_) => { return Err(DepsError::FetchFailed(dep_id)); },
        };
        let dep_files = match &entry.files {
            FilesResult::Found(v) => v,
            FilesResult::NotFound => { return Err(DepsError::NotAvailable(dep_id)); },
            FilesResult::Error(_) => { return Err(DepsError::FetchFailed(dep_id)); },
        };
        if !any_game_version(conf, dep_files) {
            return Err(DepsError::NoVersionForGame(dep_id));
        }
        if !any_passes(conf, dep_files, as_opt_str(version_blacklist), positive_negative_in_filename) {
            return Err(DepsError::NoVersionForFilter(dep_id));
        }
        assert(files_usable(*conf, cat[k as int].files, bl, positive_negative_in_filename));
        let zb = as_opt_str(&z_version_blacklist);
        let ghost ok = conf.passing(dep_files@, crate::conf::opt_view(zb), positive_negative_in_filename);
        proof {
            lemma_select_nonempty(z_channel, dep_files@, ok);
        }
        let dep_file = match z_channel.pick_version(dep_files.as_slice(), conf, zb, positive_negative_in_filename) {
            Some(f) => f,
            None => {
                assert(false);
                return Err(DepsError::NoVersionForFilter(dep_id));
            },
        };
        let sub_deps = dep_file.dependencies.iter_required();
        let ghost q1 = install_queue@;
        proof {
            assert(catalog_ids(cat)[k as int] == dep_id);
            assert(res0.push(dep_id).no_duplicates()) by {
                assert forall|a: int, b: int| 0 <= a < res0.push(dep_id).len() && 0 <= b < res0.push(dep_id).len() && a != b
                    implies res0.push(dep_id)[a] != res0.push(dep_id)[b] by {
                    if a < res0.len() && b < res0.len() {
                    } else if a < res0.len() {
                        assert(res0.contains(res0[a]));
                    } else {
                        assert(res0.contains(res0[b]));
                    }
                }
            }
            assert forall|m: int| 0 <= m < res0.push(dep_id).len() implies catalog_ids(cat).contains(#[trigger] res0.push(dep_id)[m]) by {
                if m == res0.len() {
                    assert(catalog_ids(cat)[k as int] == dep_id);
                } else {
                    assert(res0.push(dep_id)[m] == res0[m]);
                }
            }
            lemma_distinct_within(res0.push(dep_id), catalog_ids(cat));
            assert forall|p: int| 0 <= p < q1.len() implies !res0.push(dep_id).contains(#[trigger] q1[p].id) by {
                if res0.push(dep_id).contains(q1[p].id) {
                    let m = choose|m: int| 0 <= m < res0.push(dep_id).len() && res0.push(dep_id)[m] == q1[p].id;
                    if m < res0.len() {
                        assert(res0[m] == q1[p].id);
                    } else {
                        assert(q1[p].id == dep_id);
                    }
                }
            }
        }
        resolving.push(dep_id);
        let sub = collect_deps(
            installed,
            catalog,
            sub_deps.as_slice(),
            conf,
            channel,
            update_opt,
            version_blacklist,
            positive_negative_in_filename,
            after,
            resolving,
            install_queue,
        );
        resolving.pop();
        assert(resolving@ =~= res0);
        let ghost q2 = install_queue@;
        proof {
            assert forall|p: int| 0 <= p < q2.len() implies !res0.contains(#[trigger] q2[p].id) by {
                if res0.contains(q2[p].id) {
                    let m = choose|m: int| 0 <= m < res0.len() && res0[m] == q2[p].id;
                    assert(res0.push(dep_id)[m] == q2[p].id);
                }
            }
            assert(is_prefix(q0, q2)) by {
                assert(q2.subrange(0, q0.len() as int) =~= q1.subrange(0, q0.len() as int)) by {
                    assert(q2.subrange(0, q1.len() as int) == q1);
                }
            }
            assert(is_prefix(q1, q2));
            lemma_settings_grow(installed@, channel, *version_blacklist, update_opt, q1, q2, q0.len() as int);
            assert(settings_all(installed@, channel, *version_blacklist, update_opt, q2, q0.len() as int)) by {
                assert forall|p: int| q0.len() <= p < q2.len() implies settings_ok(installed@, channel, *version_blacklist, update_opt, #[trigger] q2[p]) by {
                    if p < q1.len() {
                    } else {
                    }
                }
            }
            assert forall|p: int| q0.len() <= p < q2.len() implies !after@.contains(#[trigger] q2[p].id) by {
                if p < q1.len() {
                    assert(q2.subrange(0, q1.len() as int)[p] == q2[p]);
                }
            }
        }
        match sub {
            Ok(()) => {},
            Err(e) => { return Err(e); },
        }
        let new_dep = LocalAddon {
            id: dep_id,
            slug: AddonSlug(dep_info.slug.0.clone()),
            name: dep_info.name.clone(),
            channel: z_channel,
            update_opt: z_update_opt,
            manually_installed: z_manually_installed,
            version_blacklist: z_version_blacklist,
            positive_negative_in_filename,
            installed: Some(dep_file.duplicate()),
        };
        install_queue.push(new_dep);
        let ghost q3 = install_queue@;
        let ghost n2 = q2.len() as int;
        proof {
            assert(q3.subrange(0, n2) =~= q2);
            assert(q3[n2] == new_dep);
            assert(!queue_has(q2, dep_id)) by {
                if queue_has(q2, dep_id) {
                    let m = choose|m: int| 0 <= m < q2.len() && #[trigger] q2[m].id == dep_id;
                    if m < q1.len() {
                        assert(q2.subrange(0, q1.len() as int)[m] == q2[m]);
                        assert(q1[m].id == dep_id);
                    } else {
                        assert(res0.push(dep_id)[res0.len() as int] == dep_id);
                    }
                }
            }
            assert(ids_distinct(q3)) by {
                assert forall|a: int, b: int| 0 <= a < q3.len() && 0 <= b < q3.len() && a != b implies #[trigger] q3[a].id != #[trigger] q3[b].id by {
                    if a < n2 && b < n2 {
                        assert(q3[a] == q2[a] && q3[b] == q2[b]);
                    } else if a < n2 {
                        assert(q3[a] == q2[a]);
                    } else {
                        assert(q3[b] == q2[b]);
                    }
                }
            }
            assert(q3[n2].id == dep_id);
            assert(queue_has(q3, dep_id));
            assert(is_prefix(q0, q3)) by {
                assert(q3.subrange(0, q0.len() as int) =~= q2.subrange(0, q0.len() as int));
            }
            assert(is_prefix(q1, q3)) by {
                assert(q3.subrange(0, q1.len() as int) =~= q2.subrange(0, q1.len() as int));
            }
            assert(is_prefix(q2, q3));
            lemma_settings_grow(installed@, channel, *version_blacklist, update_opt, q2, q3, q0.len() as int);
            assert(settings_ok(installed@, channel, *version_blacklist, update_opt, q3[n2]));
            assert(settings_all(installed@, channel, *version_blacklist, update_opt, q3, q0.len() as int)) by {
                assert forall|p: int| q0.len() <= p < q3.len() implies settings_ok(installed@, channel, *version_blacklist, update_opt, #[trigger] q3[p]) by {
                    if p < n2 {
                    } else {
                        assert(p == n2);
                    }
                }
            }
            assert forall|p: int| 0 <= p < q3.len() implies !res0.contains(#[trigger] q3[p].id) by {
                if p < n2 { assert(q3[p] == q2[p]); }
            }
            assert forall|p: int| q0.len() <= p < q3.len() implies !after@.contains(#[trigger] q3[p].id) by {
                if p < n2 { assert(q3[p] == q2[p]); }
            }
            // soundness and post-order
            lemma_plan_grows(*conf, cat, installed@, positive_negative_in_filename, q1, q3, q0.len() as int, q1.len() as int, after@);
            lemma_plan_grows(*conf, cat, installed@, positive_negative_in_filename, q2, q3, q1.len() as int, n2, after@);
            assert(entry_ok(*conf, cat, installed@, positive_negative_in_filename, q3[n2])) by {
                assert(cat[k as int].id == dep_id);
                assert(selected_from(*conf, cat[k as int], positive_negative_in_filename, new_dep));
            }
            assert(entry_closed(installed@, q3, after@, n2)) by {
                assert forall|d: AddonID| kind_ids(q3[n2].installed->0.dependencies@, KIND_REQUIRED).contains(d)
                    implies #[trigger] covered_before(installed@, q3, after@, d, n2) by {
                    assert(sub_deps@ == kind_ids(dep_file.dependencies@, KIND_REQUIRED));
                    let m = choose|m: int| 0 <= m < sub_deps@.len() && sub_deps@[m] == d;
                    assert(dep_covered(installed@, q2, after@, sub_deps@[m]));
                    if queue_has(q2, d) {
                        let w = choose|w: int| 0 <= w < q2.len() && #[trigger] q2[w].id == d;
                        assert(q3[w] == q2[w]);
                    }
                }
            }
            assert(plan_ok(*conf, cat, installed@, positive_negative_in_filename, q3, q0.len() as int, q3.len() as int, after@)) by {
                assert forall|p: int| q0.len() <= p < q3.len() implies entry_ok(*conf, cat, installed@, positive_negative_in_filename, #[trigger] q3[p])
                    && entry_closed(installed@, q3, after@, p) by {
                    if p < q1.len() {
                    } else if p < n2 {
                    } else {
                        assert(p == n2);
                    }
                }
            }
            // what the catalog said
            lemma_checked_grow(*conf, cat, bl, positive_negative_in_filename, q2, q3, q0.len() as int);
            assert(entry_checked(*conf, cat, bl, positive_negative_in_filename, q3[n2]));
            assert(checked_all(*conf, cat, bl, positive_negative_in_filename, q3, q0.len() as int)) by {
                assert forall|p: int| q0.len() <= p < q3.len() implies entry_checked(*conf, cat, bl, positive_negative_in_filename, #[trigger] q3[p]) by {
                    if p == n2 {
                    }
                }
            }
            // reachability
            lemma_reached_grow(deps@, q1, q3, q0.len() as int);
            lemma_reached_grow(sub_deps@, q2, q3, q1.len() as int);
            assert(deps@.contains(q3[n2].id)) by {
                assert(deps@[i as int] == dep_id);
            }
            assert(reached(deps@, q3, q0.len() as int)) by {
                assert forall|p: int| q0.len() <= p < q3.len() implies deps@.contains((#[trigger] q3[p]).id)
                    || exists|kk: int| p < kk < q3.len() && kind_ids(q3[kk].installed->0.dependencies@, KIND_REQUIRED).contains(#[trigger] q3[p].id) by {
                    if p < q1.len() {
                    } else if p < n2 {
                        if sub_deps@.contains(q3[p].id) {
                            assert(sub_deps@ == kind_ids(q3[n2].installed->0.dependencies@, KIND_REQUIRED));
                            assert(p < n2 && n2 < q3.len());
                        }
                    } else {
                        assert(p == n2);
                    }
                }
            }
            assert forall|kk: int| 0 <= kk <= i implies dep_covered(installed@, q3, after@, #[trigger] deps@[kk]) by {
                if kk < i {
                    lemma_covered_grows(installed@, q1, q3, after@, deps@[kk]);
                }
            }
        }
        i = i + 1;
    }
    Ok(())
}

} // verus!
