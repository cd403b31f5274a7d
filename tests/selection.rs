use cursinator::addon::{
    AddonFile, AddonID, AddonSlug, Dependencies, Dependency, DownloadURL, FileGameVersion, FileID, LocalAddon,
    LocalAddons, UpdateOpt,
};
use cursinator::channel::ReleaseTypeMode;
use cursinator::conf::{init, Conf};
use cursinator::deps::{collect_deps, AddonInfo, Catalog, CatalogEntry, DepsError, FilesResult, InfoResult};
use cursinator::incompat::check_incompatibility_3;
use cursinator::install::{apply_plan, install_mod, InstallError, InstallRequest, PreviousInstall};
use cursinator::ops::{autoremovable, find_version_update, decode_channel, fix_discrepancy, has_dependents, release_type_from_flags, Discrepancy};
use cursinator::release_type::ReleaseType;

fn file(id: u64, tier: ReleaseType, deps: Vec<Dependency>) -> AddonFile {
    AddonFile {
        id: FileID(id),
        display_name: format!("File {id}"),
        file_name: format!("file-{id}.jar"),
        file_date: "2021-02-13T20:36:05Z".to_owned(),
        file_length: 3,
        release_type: tier,
        download_url: Some(DownloadURL(format!("https://example.org/{id}"))),
        is_alternate: false,
        alternate_file_id: 0,
        dependencies: Dependencies(deps),
        is_available: true,
        package_fingerprint: 0,
        game_version: vec![FileGameVersion::from_string("1.18.2".to_owned())],
        has_install_script: false,
        sha1_hash: None,
    }
}

fn conf() -> Conf {
    init(Some("1.18.2".to_owned())).unwrap()
}

fn all() -> ReleaseTypeMode {
    ReleaseTypeMode::new(true, true, true)
}

fn record(id: u64, f: Option<AddonFile>) -> LocalAddon {
    LocalAddon {
        id: AddonID(id),
        slug: AddonSlug(format!("addon-{id}")),
        name: format!("Addon {id}"),
        channel: all(),
        update_opt: UpdateOpt::All,
        manually_installed: false,
        version_blacklist: None,
        positive_negative_in_filename: true,
        installed: f,
    }
}

fn entry(id: u64, files: Vec<AddonFile>) -> CatalogEntry {
    CatalogEntry {
        id: AddonID(id),
        info: InfoResult::Found(AddonInfo {
            id: AddonID(id),
            name: format!("Addon {id}"),
            slug: AddonSlug(format!("addon-{id}")),
        }),
        files: FilesResult::Found(files),
    }
}

fn tiers() -> Vec<AddonFile> {
    vec![
        file(10, ReleaseType::Alpha, vec![]),
        file(20, ReleaseType::Beta, vec![]),
        file(30, ReleaseType::Release, vec![]),
    ]
}

#[test]
fn select_all_tiers_picks_newest_release() {
    let v = tiers();
    assert_eq!(all().select(&v, &[true, true, true]), Some(2));
}

#[test]
fn select_alpha_channel_with_only_alpha_compatible() {
    let v = tiers();
    let m = ReleaseTypeMode::new(false, false, true);
    assert_eq!(m.select(&v, &[true, false, false]), Some(0));
}

#[test]
fn select_falls_back_to_newest_overall() {
    let v = tiers();
    let m = ReleaseTypeMode::new(true, false, false);
    assert_eq!(m.select(&v, &[false, false, false]), Some(2));
}

#[test]
fn select_release_only_takes_newest_compatible_release() {
    let v = vec![
        file(1, ReleaseType::Release, vec![]),
        file(2, ReleaseType::Release, vec![]),
        file(3, ReleaseType::Beta, vec![]),
        file(4, ReleaseType::Release, vec![]),
    ];
    let m = ReleaseTypeMode::new(true, false, false);
    assert_eq!(m.select(&v, &[true, true, true, false]), Some(1));
}

#[test]
fn select_beta_accepts_release_too() {
    let v = vec![file(1, ReleaseType::Beta, vec![]), file(2, ReleaseType::Release, vec![])];
    let m = ReleaseTypeMode::new(false, true, false);
    assert_eq!(m.select(&v, &[true, true]), Some(1));
}

#[test]
fn select_empty_has_no_result() {
    assert_eq!(all().select(&[], &[]), None);
}

#[test]
fn channel_normalizes_all_false() {
    assert_eq!(ReleaseTypeMode::new(false, false, false), ReleaseTypeMode::new(true, true, true));
    assert!(ReleaseTypeMode::new2(false, false, false).is_none());
    let m = ReleaseTypeMode::new(true, false, false).union(ReleaseTypeMode::new(false, false, true));
    assert!(m.release && !m.beta && m.alpha);
    assert!(m.legal(ReleaseType::Beta));
    assert!(!ReleaseTypeMode::new(true, false, false).legal(ReleaseType::Alpha));
}

#[test]
fn pick_level_groups_by_channel() {
    let m = ReleaseTypeMode::new(true, true, false);
    assert_eq!(m.pick_level(&[ReleaseType::Alpha, ReleaseType::Beta]), ReleaseType::Beta);
    assert_eq!(m.pick_level(&[ReleaseType::Release]), ReleaseType::Release);
    assert_eq!(m.pick_level(&[ReleaseType::Alpha]), ReleaseType::Alpha);
}

#[test]
fn release_type_numbers() {
    assert_eq!(ReleaseType::from_number(1), ReleaseType::Release);
    assert_eq!(ReleaseType::Alpha.to_number(), 3);
    assert!(ReleaseType::Release.more_stable_than(&ReleaseType::Beta));
    assert!(!ReleaseType::Alpha.more_stable_than(&ReleaseType::Beta));
    assert_eq!(ReleaseType::Alpha.max(&ReleaseType::Beta), ReleaseType::Beta);
    assert_eq!(release_type_from_flags(false, true, true), Some(ReleaseType::Beta));
    assert_eq!(release_type_from_flags(false, false, false), None);
}

#[test]
fn pick_version_filters_by_game_version() {
    let c = conf();
    let mut v = tiers();
    v[2].game_version = vec![FileGameVersion::from_string("1.16.5".to_owned())];
    let m = ReleaseTypeMode::new(true, true, false);
    assert_eq!(m.pick_version(&v, &c, None, true).unwrap().id, FileID(20));
}

#[test]
fn filter_blacklist_and_loader_filters() {
    let mut c = conf();
    let mut f = file(1, ReleaseType::Release, vec![]);
    f.game_version.push(FileGameVersion::from_string("Forge".to_owned()));
    assert!(c.filter_addon_file(&f, None, true));
    assert!(!c.filter_addon_file(&f, Some(" forge "), true));
    c.negative_loader_filter.push("FORGE".to_owned());
    assert!(!c.filter_addon_file(&f, None, true));
    c.positive_loader_filter.push("1.18".to_owned());
    assert!(c.filter_addon_file(&f, None, true));
    let mut g = file(2, ReleaseType::Release, vec![]);
    g.file_name = "mod-fabric.jar".to_owned();
    let mut c2 = conf();
    c2.negative_loader_filter.push("fabric".to_owned());
    assert!(!c2.filter_addon_file(&g, None, true));
    assert!(c2.filter_addon_file(&g, None, false));
}

#[test]
fn resolve_post_order() {
    let c = conf();
    let y = AddonID(2);
    let z = AddonID(3);
    let catalog = Catalog {
        entries: vec![
            entry(2, vec![file(200, ReleaseType::Release, vec![Dependency::Required(z)])]),
            entry(3, vec![file(300, ReleaseType::Release, vec![])]),
        ],
    };
    let installed = LocalAddons::new();
    let after = vec![AddonID(1)];
    let mut resolving = vec![];
    let mut queue = vec![];
    let r = collect_deps(&installed, &catalog, &[y], &c, all(), UpdateOpt::All, &None, true, &after, &mut resolving, &mut queue);
    assert!(r.is_ok());
    let ids: Vec<u64> = queue.iter().map(|a| a.id.0).collect();
    assert_eq!(ids, vec![3, 2]);
    assert_eq!(queue[0].installed.as_ref().unwrap().id, FileID(300));
    assert!(resolving.is_empty());
}

#[test]
fn resolve_nothing_when_all_installed() {
    let c = conf();
    let mut installed = LocalAddons::new();
    installed.insert(record(2, Some(file(200, ReleaseType::Release, vec![]))));
    let catalog = Catalog { entries: vec![] };
    let after: Vec<AddonID> = vec![];
    let mut resolving = vec![];
    let mut queue = vec![];
    let r = collect_deps(&installed, &catalog, &[AddonID(2)], &c, all(), UpdateOpt::All, &None, true, &after, &mut resolving, &mut queue);
    assert!(r.is_ok());
    assert!(queue.is_empty());
}

#[test]
fn resolve_errors() {
    let c = conf();
    let installed = LocalAddons::new();
    let after: Vec<AddonID> = vec![];
    let mut resolving = vec![];
    let mut queue = vec![];
    let empty = Catalog { entries: vec![] };
    assert_eq!(
        collect_deps(&installed, &empty, &[AddonID(5)], &c, all(), UpdateOpt::All, &None, true, &after, &mut resolving, &mut queue),
        Err(DepsError::NeedFetch(AddonID(5)))
    );
    let missing = Catalog {
        entries: vec![CatalogEntry { id: AddonID(5), info: InfoResult::NotFound, files: FilesResult::NotFound }],
    };
    assert_eq!(
        collect_deps(&installed, &missing, &[AddonID(5)], &c, all(), UpdateOpt::All, &None, true, &after, &mut resolving, &mut queue),
        Err(DepsError::NotAvailable(AddonID(5)))
    );
    let failed = Catalog {
        entries: vec![CatalogEntry {
            id: AddonID(5),
            info: InfoResult::Error("timeout".to_owned()),
            files: FilesResult::NotFound,
        }],
    };
    assert_eq!(
        collect_deps(&installed, &failed, &[AddonID(5)], &c, all(), UpdateOpt::All, &None, true, &after, &mut resolving, &mut queue),
        Err(DepsError::FetchFailed(AddonID(5)))
    );
    let mut old = file(50, ReleaseType::Release, vec![]);
    old.game_version = vec![FileGameVersion::from_string("1.12.2".to_owned())];
    let wrong_game = Catalog { entries: vec![entry(5, vec![old])] };
    assert_eq!(
        collect_deps(&installed, &wrong_game, &[AddonID(5)], &c, all(), UpdateOpt::All, &None, true, &after, &mut resolving, &mut queue),
        Err(DepsError::NoVersionForGame(AddonID(5)))
    );
    let filtered = Catalog { entries: vec![entry(5, vec![file(50, ReleaseType::Release, vec![])])] };
    assert_eq!(
        collect_deps(&installed, &filtered, &[AddonID(5)], &c, all(), UpdateOpt::All, &Some("1.18".to_owned()), true,
            &after, &mut resolving, &mut queue),
        Err(DepsError::NoVersionForFilter(AddonID(5)))
    );
    assert!(queue.is_empty());
}

#[test]
fn resolve_breaks_cycles() {
    let c = conf();
    let catalog = Catalog {
        entries: vec![
            entry(2, vec![file(200, ReleaseType::Release, vec![Dependency::Required(AddonID(3))])]),
            entry(3, vec![file(300, ReleaseType::Release, vec![Dependency::Required(AddonID(2))])]),
        ],
    };
    let installed = LocalAddons::new();
    let after: Vec<AddonID> = vec![];
    let mut resolving = vec![];
    let mut queue = vec![];
    let r = collect_deps(&installed, &catalog, &[AddonID(2)], &c, all(), UpdateOpt::All, &None, true, &after, &mut resolving, &mut queue);
    assert_eq!(r, Err(DepsError::Cycle(AddonID(2))));
    let root_after = vec![AddonID(2)];
    let mut queue2 = vec![];
    let r2 = collect_deps(&installed, &catalog, &[AddonID(3)], &c, all(), UpdateOpt::All, &None, true, &root_after, &mut resolving, &mut queue2);
    assert!(r2.is_ok());
    let ids: Vec<u64> = queue2.iter().map(|a| a.id.0).collect();
    assert_eq!(ids, vec![3]);
}

#[test]
fn incompatibility_reported_from_either_side() {
    let a = record(1, Some(file(10, ReleaseType::Release, vec![Dependency::Incompatible(AddonID(2))])));
    let b = record(2, Some(file(20, ReleaseType::Release, vec![])));
    let mut local_b = LocalAddons::new();
    local_b.insert(b.clone());
    let mut local_a = LocalAddons::new();
    local_a.insert(a.clone());
    let r1 = check_incompatibility_3(&[a.clone()], &local_b);
    let r2 = check_incompatibility_3(&[b.clone()], &local_a);
    assert_eq!(r1.len(), 1);
    assert_eq!(r2.len(), 1);
    let p1 = (r1[0].from.0.min(r1[0].to.0), r1[0].from.0.max(r1[0].to.0));
    let p2 = (r2[0].from.0.min(r2[0].to.0), r2[0].from.0.max(r2[0].to.0));
    assert_eq!(p1, (1, 2));
    assert_eq!(p1, p2);
}

#[test]
fn incompatibility_pairs_deduplicated() {
    let a = record(1, Some(file(10, ReleaseType::Release, vec![Dependency::Incompatible(AddonID(2))])));
    let b = record(2, Some(file(20, ReleaseType::Release, vec![Dependency::Incompatible(AddonID(1))])));
    let mut local = LocalAddons::new();
    local.insert(a.clone());
    local.insert(b.clone());
    let r = check_incompatibility_3(&[a, b], &local);
    assert_eq!(r.len(), 1);
    let none = check_incompatibility_3(&[record(3, None)], &local);
    assert!(none.is_empty());
}

#[test]
fn dependency_kinds() {
    let d = Dependencies(vec![
        Dependency::Required(AddonID(1)),
        Dependency::Optional(AddonID(2)),
        Dependency::Required(AddonID(3)),
        Dependency::Incompatible(AddonID(4)),
    ]);
    assert_eq!(d.iter_required(), vec![AddonID(1), AddonID(3)]);
    assert_eq!(d.iter_optional(), vec![AddonID(2)]);
    assert_eq!(d.iter_incompatible(), vec![AddonID(4)]);
    assert!(d.iter_tool().is_empty());
    assert_eq!(Dependency::from_idx(5, AddonID(9)), Some(Dependency::Incompatible(AddonID(9))));
    assert_eq!(Dependency::from_idx(7, AddonID(9)), None);
    assert_eq!(Dependency::Tool(AddonID(8)).idx(), 4);
    assert_eq!(Dependency::Tool(AddonID(8)).id(), AddonID(8));
    let more = Dependencies(vec![Dependency::Required(AddonID(5))]);
    assert!(d.new_required(&more));
    assert!(!d.new_required(&Dependencies(vec![Dependency::Required(AddonID(3))])));
}

#[test]
fn install_plans_dependencies_first() {
    let c = conf();
    let root = file(100, ReleaseType::Release, vec![Dependency::Required(AddonID(2))]);
    let catalog = Catalog { entries: vec![entry(2, vec![file(200, ReleaseType::Release, vec![])])] };
    let mut addons = LocalAddons::new();
    let req = InstallRequest {
        addon_id: AddonID(1),
        install: root,
        force_incompat: false,
        slug: AddonSlug("root".to_owned()),
        name: "Root".to_owned(),
        channel: all(),
        update_opt: UpdateOpt::All,
        manually_installed: true,
        version_blacklist: None,
        positive_negative_in_filename: true,
    };
    let prev = PreviousInstall { path_exists: false, disabled_is_file: false };
    let plan = install_mod(req.clone(), false, &addons, &c, &catalog, prev).unwrap();
    let ids: Vec<u64> = plan.jobs.iter().map(|j| j.id.0).collect();
    assert_eq!(ids, vec![2, 1]);
    assert_eq!(plan.jobs[0].paths.path, "file-200.jar");
    assert_eq!(plan.jobs[1].paths.part_path, "file-100.jar.part");
    let dry = install_mod(req, true, &addons, &c, &catalog, prev).unwrap();
    assert!(dry.jobs.is_empty());
    assert_eq!(plan.dependencies.len(), 1);
    assert_eq!(plan.root.name, "Root");
    assert!(plan.previous.is_none() && plan.remove_previous.is_empty());
    assert!(apply_plan(&mut addons, plan));
    assert!(addons.is_installed(AddonID(1)));
    assert!(addons.is_installed(AddonID(2)));
}

#[test]
fn install_refuses_conflicts_unless_forced() {
    let c = conf();
    let root = file(100, ReleaseType::Release, vec![Dependency::Required(AddonID(2))]);
    let dep = file(200, ReleaseType::Release, vec![Dependency::Incompatible(AddonID(3))]);
    let catalog = Catalog { entries: vec![entry(2, vec![dep])] };
    let mut addons = LocalAddons::new();
    addons.insert(record(3, Some(file(300, ReleaseType::Release, vec![]))));
    let mut req = InstallRequest {
        addon_id: AddonID(1),
        install: root,
        force_incompat: false,
        slug: AddonSlug("root".to_owned()),
        name: "Root".to_owned(),
        channel: all(),
        update_opt: UpdateOpt::All,
        manually_installed: true,
        version_blacklist: None,
        positive_negative_in_filename: true,
    };
    let prev = PreviousInstall { path_exists: false, disabled_is_file: false };
    match install_mod(req.clone(), false, &addons, &c, &catalog, prev) {
        Err(InstallError::Incompatible { conflicts, dependencies }) => {
            assert_eq!(conflicts.len(), 1);
            assert_eq!(dependencies.len(), 1);
        },
        _ => panic!("conflict expected"),
    }
    req.force_incompat = true;
    let plan = install_mod(req, false, &addons, &c, &catalog, prev).unwrap();
    assert_eq!(plan.conflicts.len(), 1);
    assert_eq!(plan.jobs.len(), 2);
}

#[test]
fn update_skips_installed_and_older() {
    let c = conf();
    let v = tiers();
    let m = all();
    let up = find_version_update(&v, Some(FileID(20)), &c, None, m, false, true).unwrap();
    assert_eq!(up.id, FileID(30));
    assert!(find_version_update(&v, Some(FileID(30)), &c, None, m, false, true).is_none());
    let beta = ReleaseTypeMode::new(false, true, false);
    let v2 = vec![file(10, ReleaseType::Beta, vec![]), file(20, ReleaseType::Alpha, vec![])];
    assert!(find_version_update(&v2, Some(FileID(20)), &c, None, beta, false, true).is_none());
    assert_eq!(find_version_update(&v2, Some(FileID(20)), &c, None, beta, true, true).unwrap().id, FileID(10));
}

#[test]
fn discrepancies_detected() {
    let mut v = tiers();
    let mut installed = file(20, ReleaseType::Release, vec![Dependency::Required(AddonID(9))]);
    let r = fix_discrepancy(&mut v, &installed);
    assert_eq!(r, vec![Discrepancy::ReleaseType]);
    installed.dependencies = Dependencies(vec![]);
    v[1].dependencies = Dependencies(vec![Dependency::Required(AddonID(9))]);
    installed.release_type = ReleaseType::Beta;
    assert_eq!(fix_discrepancy(&mut v, &installed), vec![Discrepancy::RequiredDependencies]);
    let gone = file(25, ReleaseType::Release, vec![]);
    assert_eq!(fix_discrepancy(&mut v, &gone), vec![Discrepancy::NotOnline]);
    let ids: Vec<u64> = v.iter().map(|f| f.id.0).collect();
    assert_eq!(ids, vec![10, 20, 25, 30]);
}

#[test]
fn dependents_and_autoremove() {
    let mut addons = LocalAddons::new();
    let mut top = record(1, Some(file(10, ReleaseType::Release, vec![Dependency::Required(AddonID(2))])));
    top.manually_installed = true;
    addons.insert(top);
    addons.insert(record(2, Some(file(20, ReleaseType::Release, vec![]))));
    addons.insert(record(3, Some(file(30, ReleaseType::Release, vec![]))));
    addons.insert(record(4, None));
    assert_eq!(has_dependents(AddonID(2), &addons), vec![AddonID(1)]);
    assert!(has_dependents(AddonID(3), &addons).is_empty());
    assert_eq!(autoremovable(&addons), vec![AddonID(3)]);
}

#[test]
fn channel_text() {
    assert_eq!(decode_channel(" rb ").unwrap(), ReleaseTypeMode::new(true, true, false));
    assert_eq!(decode_channel("A").unwrap(), ReleaseTypeMode::new(false, false, true));
    assert_eq!(decode_channel("").unwrap(), ReleaseTypeMode::new(true, true, true));
    assert!(decode_channel("rx").is_err());
}

#[test]
fn local_set_insert_replaces() {
    let mut addons = LocalAddons::new();
    addons.insert(record(1, None));
    assert!(!addons.is_installed(AddonID(1)));
    addons.insert(record(1, Some(file(10, ReleaseType::Release, vec![]))));
    assert_eq!(addons.0.len(), 1);
    assert!(addons.is_installed(AddonID(1)));
    assert!(addons.get(AddonID(7)).is_none());
}

#[test]
fn dependencies_sorted_by_kind_then_id() {
    let mut f = file(1, ReleaseType::Release, vec![
        Dependency::Incompatible(AddonID(2)),
        Dependency::Required(AddonID(9)),
        Dependency::Required(AddonID(3)),
        Dependency::EmbeddedLibrary(AddonID(7)),
    ]);
    f.sort_deps();
    assert_eq!(f.dependencies.0, vec![
        Dependency::EmbeddedLibrary(AddonID(7)),
        Dependency::Required(AddonID(3)),
        Dependency::Required(AddonID(9)),
        Dependency::Incompatible(AddonID(2)),
    ]);
    let mut addons = LocalAddons::new();
    addons.insert(record(1, Some(file(10, ReleaseType::Release, vec![Dependency::Tool(AddonID(5)), Dependency::Optional(AddonID(6))]))));
    addons.sort_deps();
    assert_eq!(addons.0[0].installed.as_ref().unwrap().dependencies.0[0], Dependency::Optional(AddonID(6)));
}
