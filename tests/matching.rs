use cursinator::addon::{AddonFile, AddonID, AddonSlug, Dependencies, FileGameVersion, FileID, LocalAddon, LocalAddons, UpdateOpt};
use cursinator::channel::ReleaseTypeMode;
use cursinator::matching::{cut_after_slash, find_installed_mod_by_key, find_to_install_version_by_key, match_str, unwrap_match, MatchError};
use cursinator::release_type::ReleaseType;
use cursinator::version::GameVersion;

fn file(id: u64, display: &str, name: &str, gv: &str) -> AddonFile {
    AddonFile {
        id: FileID(id),
        display_name: display.to_owned(),
        file_name: name.to_owned(),
        file_date: String::new(),
        file_length: 1,
        release_type: ReleaseType::Release,
        download_url: None,
        is_alternate: false,
        alternate_file_id: 0,
        dependencies: Dependencies(vec![]),
        is_available: true,
        package_fingerprint: 0,
        game_version: vec![FileGameVersion::from_string(gv.to_owned())],
        has_install_script: false,
        sha1_hash: None,
    }
}

fn bools() -> Vec<Vec<(bool, String)>> {
    vec![vec![
        (false, "false".to_owned()),
        (true, "true".to_owned()),
        (false, "no".to_owned()),
        (true, "yes".to_owned()),
        (false, "0".to_owned()),
        (true, "1".to_owned()),
    ]]
}

#[test]
fn exact_match_wins() {
    let m = match_str("yes", &bools()).unwrap();
    assert!(m.z);
    assert_eq!((m.start, m.end), (0, 3));
    assert!(!match_str("0", &bools()).unwrap().z);
}

#[test]
fn substring_and_levels() {
    let srcs = vec![vec![(1u32, "Tinkers' Construct".to_owned()), (2u32, "JEI".to_owned())]];
    let m = match_str("construct", &srcs).unwrap();
    assert_eq!(m.z, 1);
    assert_eq!(m.string, "tinkers' construct");
    assert_eq!(m.prefix(), "tinkers' ");
    assert_eq!(m.marked(), "construct");
    assert_eq!(m.suffix(), "");
    let jei = match_str("jei", &srcs).unwrap();
    assert_eq!(jei.z, 2);
}

#[test]
fn ambiguous_and_missing() {
    let srcs = vec![vec![(1u32, "abc".to_owned()), (2u32, "abd".to_owned())]];
    let e = match_str("ab", &srcs).unwrap_err();
    assert_eq!(e.len(), 2);
    assert!(match_str("zzz", &srcs).unwrap_err().is_empty());
    assert!(matches!(unwrap_match(match_str("zzz", &srcs)), Err(MatchError::NoMatch)));
    assert!(matches!(unwrap_match(match_str("ab", &srcs)), Err(MatchError::Ambiguous(v)) if v.len() == 2));
}

#[test]
fn separators_are_ignored_late() {
    let srcs = vec![vec![(1u32, "Just Enough-Items".to_owned())]];
    assert_eq!(match_str("justenoughitems", &srcs).unwrap().z, 1);
}

#[test]
fn version_lookup_by_key() {
    let g = GameVersion::from_string("1.18.2".to_owned()).unwrap();
    let v = vec![
        file(1, "Mod 1.0", "dl/mod-1.0.jar", "1.18.2"),
        file(2, "Mod 2.0", "dl/mod-2.0.jar", "1.18.2"),
        file(3, "Mod 3.0", "dl/mod-3.0.jar", "1.12.2"),
    ];
    assert_eq!(find_to_install_version_by_key("Mod 2.0", &v, &g).unwrap().z, 1);
    assert_eq!(find_to_install_version_by_key("mod-1.0.jar", &v, &g).unwrap().z, 0);
    assert!(find_to_install_version_by_key("Mod 3.0", &v, &g).is_err());
    assert_eq!(cut_after_slash("a/b/c.jar"), "c.jar");
    assert_eq!(cut_after_slash("c.jar"), "c.jar");
}

#[test]
fn installed_lookup_by_key() {
    let mut addons = LocalAddons::new();
    addons.insert(LocalAddon {
        id: AddonID(7),
        slug: AddonSlug("jei".to_owned()),
        name: "Just Enough Items".to_owned(),
        channel: ReleaseTypeMode::new(true, true, true),
        update_opt: UpdateOpt::All,
        manually_installed: true,
        version_blacklist: None,
        positive_negative_in_filename: true,
        installed: Some(file(1, "JEI", "jei-1.jar", "1.18.2")),
    });
    addons.insert(LocalAddon {
        id: AddonID(8),
        slug: AddonSlug("gone".to_owned()),
        name: "Gone".to_owned(),
        channel: ReleaseTypeMode::new(true, true, true),
        update_opt: UpdateOpt::All,
        manually_installed: true,
        version_blacklist: None,
        positive_negative_in_filename: true,
        installed: None,
    });
    assert_eq!(find_installed_mod_by_key("jei", &addons, false).unwrap().z, AddonID(7));
    assert_eq!(find_installed_mod_by_key("jei-1.jar", &addons, false).unwrap().z, AddonID(7));
    assert!(find_installed_mod_by_key("gone", &addons, false).is_err());
    assert_eq!(find_installed_mod_by_key("gone", &addons, true).unwrap().z, AddonID(8));
}

#[test]
fn display_name_shows_both_when_different() {
    let f = file(1, " Mod 1.0 ", "mod-1.0.jar ", "1.18.2");
    assert_eq!(cursinator::matching::addon_file_display_name(&f), "Mod 1.0 (mod-1.0.jar)");
    let g = file(2, "mod.jar", " mod.jar", "1.18.2");
    assert_eq!(cursinator::matching::addon_file_display_name(&g), "mod.jar");
    assert_eq!(ReleaseTypeMode::new(true, false, true).to_string(), "ra");
}
