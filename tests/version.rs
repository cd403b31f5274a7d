use cursinator::addon::FileGameVersion;
use cursinator::conf::{default_api_domain, default_soft_retries, init, InitError};
use cursinator::release_type::{release_type_prefix, release_type_str, ReleaseType};
use cursinator::version::{GameVersion, VersionError, VersionMatchRange, VersionMatcher, VersionPart};

fn gv(s: &str) -> GameVersion {
    GameVersion::from_string(s.to_owned()).unwrap()
}

fn fgv(s: &str) -> Vec<FileGameVersion> {
    vec![FileGameVersion::from_string(s.to_owned())]
}

#[test]
fn version_part_parses_points_and_qualifier() {
    let p = VersionPart::parse_str("1.18.2").unwrap();
    assert_eq!(p.points, vec![(1, false), (18, false), (2, false)]);
    assert!(p.qualifier.is_none());
    let q = VersionPart::parse_str("1.20+ pre1").unwrap();
    assert_eq!(q.points, vec![(1, false), (20, true)]);
    assert_eq!(q.qualifier, Some(b"pre1".to_vec()));
    assert_eq!(VersionPart::parse_str("1.(2").unwrap_err(), VersionError::IllegalChar);
    assert_eq!(VersionPart::parse_str("99999999999.1").unwrap_err(), VersionError::BadNumber);
    assert!(VersionPart::empty().points.is_empty());
}

#[test]
fn version_range_parses() {
    let r = VersionMatchRange::parse_str("1.18 - 1.19").unwrap();
    assert_eq!(r.start_vp.points.len(), 2);
    assert!(r.end_vp.is_some());
    assert!(!r.is_empty_recursive());
    assert_eq!(VersionMatchRange::parse_str("1-2-3").unwrap_err(), VersionError::BadRangeEnd);
    let mut cursor = 0usize;
    let r2 = VersionMatchRange::parse(b"1.2,3", &mut cursor).unwrap();
    assert_eq!(cursor, 3);
    assert!(r2.end_vp.is_none());
}

#[test]
fn matcher_ranges_and_exclusions() {
    let m = VersionMatcher::parse("1.18-1.19, !1.18.1").unwrap();
    assert_eq!(m.range.len(), 1);
    assert_eq!(m.antirange.len(), 1);
    assert!(!m.is_empty_recursive());
    let g = gv("1.18-1.19, !1.18.1");
    assert!(g.matches(&fgv("1.18.2")));
    assert!(!g.matches(&fgv("1.18.1")));
    assert!(g.matches(&fgv("1.19.4")));
    assert!(!g.matches(&fgv("1.20")));
    assert!(!g.matches(&fgv("1.17.1")));
}

#[test]
fn single_version_and_plus() {
    let g = gv("1.18.2");
    assert!(g.parse_and_match_str("1.18.2"));
    assert!(!g.parse_and_match_str("1.18.3"));
    assert!(!g.parse_and_match_str("Forge"));
    let plus = gv("1.18+");
    assert!(plus.parse_and_match_str("1.19"));
    assert!(!plus.parse_and_match_str("1.17"));
    assert_eq!(plus.matches_idx(&[FileGameVersion::from_string("Fabric".to_owned()), FileGameVersion::from_string("1.20".to_owned())]), Some(1));
}

#[test]
fn snapshot_suffix_normalized() {
    let f = FileGameVersion::from_string("1.19-Snapshot".to_owned());
    assert_eq!(f.str, "1.19.99999999");
    let g = gv("1.19.99999999");
    assert!(g.parse_and_match_str("1.19-snapshot"));
}

#[test]
fn game_version_refusals() {
    assert_eq!(GameVersion::from_string("".to_owned()).unwrap_err(), VersionError::Empty);
    assert_eq!(GameVersion::from_string("1.2 pre - 1.3 alpha".to_owned()).unwrap_err(), VersionError::SwappedRange);
    assert_eq!(init(None).unwrap_err(), InitError::NoGameVersion);
    assert_eq!(init(Some("[1]".to_owned())).unwrap_err(), InitError::BadGameVersion(VersionError::IllegalChar));
}

#[test]
fn defaults_and_labels() {
    let c = init(Some("1.18.2".to_owned())).unwrap();
    assert_eq!(c.soft_retries, default_soft_retries());
    assert_eq!(c.api_domain, default_api_domain());
    assert_eq!(default_api_domain(), "https://api.curseforge.com/v1");
    assert!(c.url_txt && c.addon_mtime);
    assert_eq!(release_type_prefix(&ReleaseType::Beta), "BETA:      ");
    assert_eq!(release_type_str(&ReleaseType::Release), "RELEASE");
    assert_eq!(ReleaseType::Alpha.to_string(), "Alpha");
}
