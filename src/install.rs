use vstd::prelude::*;

use crate::addon::{kind_ids, AddonFile, AddonID, AddonSlug, LocalAddon, LocalAddons, UpdateOpt, KIND_REQUIRED};
use crate::channel::ReleaseTypeMode;
use crate::conf::Conf;
use crate::deps::{
    checked_all, collect_deps, dep_covered, error_explained, ids_distinct, locally_installed, plan_ok, reached,
    settings_all, string_opt_view, Catalog, DepsError,
};
use crate::finalize::FsAction;
use crate::incompat::{check_incompatibility_3, conflicts_exact, Incompat};
use crate::paths::{current_paths, new_paths, removal, FilePaths};

verus! {

/// One addon to fetch and install, and where it goes.
#[derive(Clone, Debug)]
pub struct InstallJob {
    pub id: AddonID,
    pub paths: FilePaths,
}

/// What an install does: the dependency records to add (in install order) and the addon's own
/// record; the jobs in order (dependencies first, the addon last); the current install of the
/// addon, if any, and its removal once everything committed; the conflicts that were accepted.
#[derive(Clone, Debug)]
pub struct InstallPlan {
    pub dependencies: Vec<LocalAddon>,
    pub root: LocalAddon,
    pub jobs: Vec<InstallJob>,
    pub previous: Option<FilePaths>,
    pub remove_previous: Vec<FsAction>,
    pub conflicts: Vec<Incompat>,
}

/// Why an install cannot go ahead.
#[derive(Clone, Debug)]
pub enum InstallError {
    /// Resolving the dependencies failed.
    Deps(DepsError),
    /// The planned dependencies conflict with each other or with installed addons.
    Incompatible { conflicts: Vec<Incompat>, dependencies: Vec<LocalAddon> },
}

/// What the caller found on disk about the addon's current install.
#[derive(Clone, Copy, Debug)]
pub struct PreviousInstall {
    pub path_exists: bool,
    pub disabled_is_file: bool,
}

/// The settings that the addon's own record gets.
#[derive(Clone, Debug)]
pub struct InstallRequest {
    pub addon_id: AddonID,
    pub install: AddonFile,
    pub force_incompat: bool,
    pub slug: AddonSlug,
    pub name: String,
    pub channel: ReleaseTypeMode,
    pub update_opt: UpdateOpt,
    pub manually_installed: bool,
    pub version_blacklist: Option<String>,
    pub positive_negative_in_filename: bool,
}

/// The dependency records resolved for `req`: sound, in post-order, checked against the catalog,
/// reachable from the file's required dependencies, with their settings, and covering every
/// required dependency of the file.
pub open spec fn deps_plan_ok(conf: Conf, catalog: Seq<crate::deps::CatalogEntry>, addons: Seq<LocalAddon>,
    req: InstallRequest, d: Seq<LocalAddon>) -> bool {
    let required = kind_ids(req.install.dependencies@, KIND_REQUIRED);
    &&& ids_distinct(d)
    &&& plan_ok(conf, catalog, addons, req.positive_negative_in_filename, d, 0, d.len() as int, seq![req.addon_id])
    &&& checked_all(conf, catalog, string_opt_view(req.version_blacklist), req.positive_negative_in_filename, d, 0)
    &&& reached(required, d, 0)
    &&& settings_all(addons, req.channel, req.version_blacklist, req.update_opt, d, 0)
    &&& forall|p: int| 0 <= p < d.len() ==> (#[trigger] d[p]).id != req.addon_id
    &&& forall|x: AddonID| required.contains(x) ==> #[trigger] dep_covered(addons, d, seq![req.addon_id], x)
}

/// The addon's own record, with the requested settings and file.
pub open spec fn root_record(req: InstallRequest, r: LocalAddon) -> bool {
    &&& r.id == req.addon_id
    &&& r.slug == req.slug
    &&& r.name == req.name
    &&& r.channel == req.channel
    &&& r.update_opt == req.update_opt
    &&& r.manually_installed == req.manually_installed
    &&& r.version_blacklist == req.version_blacklist
    &&& r.positive_negative_in_filename == req.positive_negative_in_filename
    &&& r.installed == Some(req.install)
}

/// Whether the local set has an installed file for the addon.
pub open spec fn has_previous(addons: Seq<LocalAddon>, id: AddonID) -> bool {
    exists|i: int| 0 <= i < addons.len() && (#[trigger] addons[i]).id == id && addons[i].installed is Some
}

/// `pp` is where the addon's current install is, if it has one.
pub open spec fn previous_ok(addons: Seq<LocalAddon>, id: AddonID, previous: PreviousInstall, conf: Conf,
    pp: Option<FilePaths>) -> bool {
    if has_previous(addons, id) {
        pp is Some && exists|i: int| 0 <= i < addons.len() && (#[trigger] addons[i]).id == id && addons[i].installed is Some
            && current_paths(addons[i].installed->0, id, previous.path_exists, previous.disabled_is_file, conf, pp->0)
    } else {
        pp is None
    }
}

fn plan_jobs(queue: &Vec<LocalAddon>, conf: &Conf) -> (r: Vec<InstallJob>)
    requires
        forall|p: int| 0 <= p < queue@.len() ==> (#[trigger] queue@[p]).installed is Some,
    ensures
        r@.len() == queue@.len(),
        forall|p: int| 0 <= p < r@.len() ==> (#[trigger] r@[p]).id == queue@[p].id
            && new_paths(queue@[p].installed->0, queue@[p].id, false, *conf, r@[p].paths),
{
    let mut jobs: Vec<InstallJob> = Vec::new();
    let mut i: usize = 0;
    while i < queue.len()
        invariant
            i <= queue@.len(),
            forall|p: int| 0 <= p < queue@.len() ==> (#[trigger] queue@[p]).installed is Some,
            jobs@.len() == i,
            forall|p: int| 0 <= p < i ==> (#[trigger] jobs@[p]).id == queue@[p].id
                && new_paths(queue@[p].installed->0, queue@[p].id, false, *conf, jobs@[p].paths),
        decreases queue@.len() - i,
    {
        let rec = &queue[i];
        let paths = match &rec.installed {
            Some(f) => f.file_paths_new(rec.id, false, conf),
            None => { assert(false); return jobs; },
        };
        jobs.push(InstallJob { id: rec.id, paths });
        i = i + 1;
    }
    jobs
}

/// Plans the install of `req.install` for addon `req.addon_id`: resolves its required
/// dependencies against the local set and the catalog's answers, refuses conflicts among them
/// and with installed addons unless forced, and lays out where each file goes and what the
/// superseded install leaves to remove. In a dry run the plan holds no jobs.
pub fn install_mod(
    req: InstallRequest,
    noop: bool,
    addons: &LocalAddons,
    conf: &Conf,
    catalog: &Catalog,
    previous: PreviousInstall,
) -> (r: Result<InstallPlan, InstallError>)
    requires
        conf.wf(),
        addons.wf(),
    ensures
        match r {
            Ok(plan) => {
                let d = plan.dependencies@;
                &&& deps_plan_ok(*conf, catalog.entries@, addons@, req, d)
                &&& conflicts_exact(plan.conflicts@, d, addons@)
                &&& (plan.conflicts@.len() > 0 ==> req.force_incompat)
                &&& root_record(req, plan.root)
                &&& previous_ok(addons@, req.addon_id, previous, *conf, plan.previous)
                &&& (noop ==> plan.jobs@.len() == 0 && plan.remove_previous@.len() == 0)
                &&& (!noop ==> {
                    let n = plan.jobs@.len();
                    let disabled = match plan.previous { Some(x) => x.disabled, None => false };
                    &&& n == d.len() + 1
                    &&& forall|p: int| 0 <= p < d.len() ==> (#[trigger] plan.jobs@[p]).id == d[p].id
                        && new_paths(d[p].installed->0, d[p].id, false, *conf, plan.jobs@[p].paths)
                    &&& plan.jobs@[n - 1].id == req.addon_id
                    &&& new_paths(req.install, req.addon_id, disabled, *conf, plan.jobs@[n - 1].paths)
                    &&& plan.remove_previous@ == match plan.previous {
                        Some(x) => removal(x, plan.jobs@[n - 1].paths),
                        None => Seq::<FsAction>::empty(),
                    }
                })
            },
            Err(InstallError::Incompatible { conflicts, dependencies }) => {
                &&& deps_plan_ok(*conf, catalog.entries@, addons@, req, dependencies@)
                &&& conflicts_exact(conflicts@, dependencies@, addons@)
                &&& conflicts@.len() > 0
                &&& !req.force_incompat
            },
            Err(InstallError::Deps(e)) => error_explained(*conf, catalog.entries@, string_opt_view(req.version_blacklist),
                req.positive_negative_in_filename, e),
        },
        (forall|d: AddonID| #[trigger] kind_ids(req.install.dependencies@, KIND_REQUIRED).contains(d) ==> locally_installed(addons@, d))
            ==> !(r matches Err(InstallError::Deps(_))),
{
    let mut queue: Vec<LocalAddon> = Vec::new();
    let mut resolving: Vec<AddonID> = Vec::new();
    let mut after: Vec<AddonID> = Vec::new();
    after.push(req.addon_id);
    assert(after@ =~= seq![req.addon_id]);
    let required = req.install.dependencies.iter_required();
    let res = collect_deps(
        addons,
        catalog,
        required.as_slice(),
        conf,
        req.channel,
        req.update_opt,
        &req.version_blacklist,
        req.positive_negative_in_filename,
        &after,
        &mut resolving,
        &mut queue,
    );
    proof {
        if forall|d: AddonID| #[trigger] kind_ids(req.install.dependencies@, KIND_REQUIRED).contains(d) ==> locally_installed(addons@, d) {
            assert forall|k: int| 0 <= k < required@.len() implies locally_installed(addons@, #[trigger] required@[k]) by {
                assert(kind_ids(req.install.dependencies@, KIND_REQUIRED).contains(required@[k]));
            }
        }
    }
    match res {
        Ok(()) => {},
        Err(e) => { return Err(InstallError::Deps(e)); },
    }
    assert(queue@.subrange(0, 0) =~= Seq::<LocalAddon>::empty());
    proof {
        assert forall|p: int| 0 <= p < queue@.len() implies (#[trigger] queue@[p]).id != req.addon_id by {
            assert(after@.contains(after@[0]));
        }
        assert forall|x: AddonID| kind_ids(req.install.dependencies@, KIND_REQUIRED).contains(x)
            implies #[trigger] dep_covered(addons@, queue@, seq![req.addon_id], x) by {
            let m = choose|m: int| 0 <= m < required@.len() && required@[m] == x;
            assert(dep_covered(addons@, queue@, after@, required@[m]));
        }
        assert(deps_plan_ok(*conf, catalog.entries@, addons@, req, queue@));
    }
    let conflicts = check_incompatibility_3(queue.as_slice(), addons);
    if conflicts.len() > 0 && !req.force_incompat {
        return Err(InstallError::Incompatible { conflicts, dependencies: queue });
    }
    let prev_paths = match addons.get(req.addon_id) {
        Some(a) => match &a.installed {
            Some(f) => Some(f.file_paths_current(req.addon_id, previous.path_exists, previous.disabled_is_file, conf)),
            None => None,
        },
        None => None,
    };
    proof {
        if has_previous(addons@, req.addon_id) && prev_paths is None {
            let i = choose|i: int| 0 <= i < addons@.len() && (#[trigger] addons@[i]).id == req.addon_id && addons@[i].installed is Some;
            let j = choose|j: int| 0 <= j < addons@.len() && addons@[j].id == req.addon_id && addons@[j].installed is None;
            assert(addons@[i].id == addons@[j].id);
        }
    }
    let record = LocalAddon {
        id: req.addon_id,
        slug: req.slug,
        name: req.name,
        channel: req.channel,
        update_opt: req.update_opt,
        manually_installed: req.manually_installed,
        version_blacklist: req.version_blacklist,
        positive_negative_in_filename: req.positive_negative_in_filename,
        installed: Some(req.install),
    };
    if noop {
        return Ok(InstallPlan {
            dependencies: queue,
            root: record,
            jobs: Vec::new(),
            previous: prev_paths,
            remove_previous: Vec::new(),
            conflicts,
        });
    }
    proof {
        assert forall|p: int| 0 <= p < queue@.len() implies (#[trigger] queue@[p]).installed is Some by {
            assert(plan_ok(*conf, catalog.entries@, addons@, req.positive_negative_in_filename, queue@, 0, queue@.len() as int, seq![req.addon_id]));
        }
    }
    let mut jobs = plan_jobs(&queue, conf);
    let disabled = match &prev_paths {
        Some(p) => p.disabled,
        None => false,
    };
    let install_paths = match &record.installed {
        Some(f) => f.file_paths_new(req.addon_id, disabled, conf),
        None => { assert(false); return Err(InstallError::Deps(DepsError::Cycle(req.addon_id))); },
    };
    let remove_previous = match &prev_paths {
        Some(p) => p.remove_if_not_new(&install_paths),
        None => Vec::new(),
    };
    let ghost before = jobs@;
    jobs.push(InstallJob { id: req.addon_id, paths: install_paths });
    proof {
        let n = jobs@.len() as int;
        assert(jobs@[n - 1].paths == install_paths);
        assert forall|p: int| 0 <= p < queue@.len() implies (#[trigger] jobs@[p]).id == queue@[p].id
            && new_paths(queue@[p].installed->0, queue@[p].id, false, *conf, jobs@[p].paths) by {
            assert(jobs@[p] == before[p]);
        }
        if prev_paths is None {
            assert(remove_previous@ =~= Seq::<FsAction>::empty());
        }
    }
    Ok(InstallPlan { dependencies: queue, root: record, jobs, previous: prev_paths, remove_previous, conflicts })
}

/// No record in `s` between `p` and `upto` has the id of the record at `p`.
pub open spec fn not_replaced(s: Seq<LocalAddon>, p: int, upto: int) -> bool {
    forall|q: int| p < q < upto ==> s[q].id != s[p].id
}

/// Puts the records into the repository in order: afterwards each record that no later record
/// replaces is in it, and the records of addons not among them are kept.
pub fn apply_records(addons: &mut LocalAddons, records: Vec<LocalAddon>)
    requires
        old(addons).wf(),
    ensures
        final(addons).wf(),
        forall|p: int| 0 <= p < records@.len() && #[trigger] not_replaced(records@, p, records@.len() as int)
            ==> final(addons)@.contains(records@[p]),
        forall|i: int| 0 <= i < old(addons)@.len()
            && (forall|p: int| 0 <= p < records@.len() ==> (#[trigger] records@[p]).id != old(addons)@[i].id)
            ==> final(addons)@.contains(#[trigger] old(addons)@[i]),
{
    let ghost all = records@;
    let ghost orig = addons@;
    let n = records.len();
    let mut q = records;
    let mut i: usize = 0;
    while q.len() > 0
        invariant
            addons.wf(),
            i + q@.len() == n,
            n == all.len(),
            q@ == all.subrange(i as int, n as int),
            forall|p: int| 0 <= p < i && #[trigger] not_replaced(all, p, i as int) ==> addons@.contains(all[p]),
            forall|k: int| 0 <= k < orig.len()
                && (forall|p: int| 0 <= p < all.len() ==> (#[trigger] all[p]).id != orig[k].id)
                ==> addons@.contains(#[trigger] orig[k]),
        decreases q@.len(),
    {
        let rec = q.remove(0);
        assert(rec == all[i as int]);
        let ghost prev = addons@;
        let id = rec.id;
        addons.insert(rec);
        proof {
            let w = choose|w: int| 0 <= w < addons@.len() && #[trigger] addons@[w].id == id;
            assert(addons@[w] == all[i as int]);
            assert(addons@.contains(all[i as int]));
            assert forall|p: int| 0 <= p < i + 1 && #[trigger] not_replaced(all, p, i + 1)
                implies addons@.contains(all[p]) by {
                if p < i {
                    assert(all[i as int].id != all[p].id);
                    assert(not_replaced(all, p, i as int));
                    assert(prev.contains(all[p]));
                    let m = choose|m: int| 0 <= m < prev.len() && prev[m] == all[p];
                    assert(prev[m].id != id);
                }
            }
            assert forall|k: int| 0 <= k < orig.len()
                && (forall|p: int| 0 <= p < all.len() ==> (#[trigger] all[p]).id != orig[k].id)
                implies addons@.contains(#[trigger] orig[k]) by {
                assert(prev.contains(orig[k]));
                let m = choose|m: int| 0 <= m < prev.len() && prev[m] == orig[k];
                assert(all[i as int].id != orig[k].id);
                assert(prev[m].id != id);
            }
        }
        i = i + 1;
        assert(q@ =~= all.subrange(i as int, n as int));
    }
}

/// Stores a committed plan: its dependency records, then the addon's record. Each is in the
/// repository afterwards, and the records of other addons are kept.
pub fn apply_plan(addons: &mut LocalAddons, plan: InstallPlan) -> (modified: bool)
    requires
        old(addons).wf(),
        ids_distinct(plan.dependencies@),
        forall|p: int| 0 <= p < plan.dependencies@.len() ==> (#[trigger] plan.dependencies@[p]).id != plan.root.id,
    ensures
        final(addons).wf(),
        modified,
        final(addons)@.contains(plan.root),
        forall|p: int| 0 <= p < plan.dependencies@.len() ==> final(addons)@.contains(#[trigger] plan.dependencies@[p]),
        forall|i: int| 0 <= i < old(addons)@.len() && old(addons)@[i].id != plan.root.id
            && (forall|p: int| 0 <= p < plan.dependencies@.len() ==> (#[trigger] plan.dependencies@[p]).id != old(addons)@[i].id)
            ==> final(addons)@.contains(#[trigger] old(addons)@[i]),
{
    let ghost deps = plan.dependencies@;
    let ghost root = plan.root;
    let mut records = plan.dependencies;
    records.push(plan.root);
    let ghost all = records@;
    assert(all =~= deps.push(root));
    apply_records(addons, records);
    proof {
        let n = deps.len() as int;
        assert(all[n] == root);
        assert(not_replaced(all, n, all.len() as int));
        assert forall|p: int| 0 <= p < deps.len() implies addons@.contains(#[trigger] deps[p]) by {
            assert(all[p] == deps[p]);
            assert forall|q: int| p < q < all.len() implies all[q].id != all[p].id by {
                if q < n {
                    assert(all[q] == deps[q]);
                }
            }
            assert(not_replaced(all, p, all.len() as int));
        }
        assert forall|i: int| 0 <= i < old(addons)@.len() && old(addons)@[i].id != root.id
            && (forall|p: int| 0 <= p < deps.len() ==> (#[trigger] deps[p]).id != old(addons)@[i].id)
            implies addons@.contains(#[trigger] old(addons)@[i]) by {
            assert forall|p: int| 0 <= p < all.len() implies (#[trigger] all[p]).id != old(addons)@[i].id by {
                if p < n {
                    assert(all[p] == deps[p]);
                }
            }
        }
    }
    true
}

} // verus!
