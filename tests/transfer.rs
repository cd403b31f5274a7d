use cursinator::addon::{AddonFile, AddonID, Dependencies, DownloadURL, FileGameVersion, FileID};
use cursinator::conf::init;
use cursinator::finalize::{Finalize, FsAction};
use cursinator::paths::{create_guarded_symlink_lazy, attached_to_path, DestState, FilePaths, LinkError};
use cursinator::release_type::ReleaseType;
use cursinator::transfer::{
    after_attempt, attempt_count, backoff_secs, check_transfer, parse_retry_duration, sha1_hex, SoftError,
    TransferOutcome, TransferStep,
};
use cursinator::validate::{url_txt_content, url_txt_lines, validate_download, DiskState, Repair, ValidateError, ValidateResult};

const ABC_SHA1: &str = "a9993e364706816aba3e25717850c26c9cd0d89d";

fn file(hash: Option<&str>) -> AddonFile {
    AddonFile {
        id: FileID(7),
        display_name: "Mod".to_owned(),
        file_name: "mod.jar".to_owned(),
        file_date: "2021-02-13T20:36:05Z".to_owned(),
        file_length: 3,
        release_type: ReleaseType::Release,
        download_url: Some(DownloadURL(" https://example.org/mod.jar ".to_owned())),
        is_alternate: false,
        alternate_file_id: 0,
        dependencies: Dependencies(vec![]),
        is_available: true,
        package_fingerprint: 0,
        game_version: vec![FileGameVersion::from_string("1.18.2".to_owned())],
        has_install_script: false,
        sha1_hash: hash.map(|h| h.to_owned()),
    }
}

fn is_remove(a: &FsAction, p: &str) -> bool {
    matches!(a, FsAction::RemoveIfExists(x) if x == p)
}

#[test]
fn sha1_hex_of_known_input() {
    assert_eq!(sha1_hex(b"abc"), ABC_SHA1);
    assert_eq!(sha1_hex(b""), "da39a3ee5e6b4b0d3255bfef95601890afd80709");
}

#[test]
fn transfer_checks_length_and_hash() {
    let f = file(Some(ABC_SHA1));
    assert_eq!(check_transfer(&f, b"abc"), Ok(ABC_SHA1.to_owned()));
    assert_eq!(check_transfer(&f, b"abcd"), Err(SoftError::LengthMismatch));
    assert_eq!(check_transfer(&f, b"abd"), Err(SoftError::HashMismatch));
    let unhashed = file(None);
    assert_eq!(check_transfer(&unhashed, b"abd").unwrap(), sha1_hex(b"abd"));
}

#[test]
fn retry_after_seconds_is_used() {
    let wait = parse_retry_duration(Some("2"), backoff_secs(1), 1_700_000_000);
    assert_eq!(wait, 2);
    let f = file(None);
    match after_attempt(&f, 1, 4, &TransferOutcome::TooManyRequests { wait_secs: wait }) {
        TransferStep::Retry { sleep_secs, error } => {
            assert_eq!(sleep_secs, 2);
            assert_eq!(error, SoftError::RateLimited);
        },
        _ => panic!("retry expected"),
    }
}

#[test]
fn retry_after_fallbacks() {
    assert_eq!(parse_retry_duration(None, 16, 0), 16);
    assert_eq!(parse_retry_duration(Some("soon"), 16, 0), 16);
    assert_eq!(parse_retry_duration(Some("+5"), 16, 0), 5);
    let now = 1_431_704_061 - 10;
    assert_eq!(parse_retry_duration(Some("Fri, 15 May 2015 15:34:21 GMT"), 16, now), 11);
    assert_eq!(parse_retry_duration(Some("Fri, 15 May 2015 15:34:21 GMT"), 16, now + 100), 16);
}

#[test]
fn backoff_is_capped_power_of_four() {
    assert_eq!(backoff_secs(0), 1);
    assert_eq!(backoff_secs(1), 4);
    assert_eq!(backoff_secs(2), 16);
    assert_eq!(backoff_secs(3), 64);
    assert_eq!(backoff_secs(9), 64);
    assert_eq!(attempt_count(0), 1);
    assert_eq!(attempt_count(4), 4);
}

#[test]
fn attempts_end_with_last_soft_error() {
    let f = file(Some(ABC_SHA1));
    match after_attempt(&f, 0, 2, &TransferOutcome::Body(b"abd".to_vec())) {
        TransferStep::Retry { error, .. } => assert_eq!(error, SoftError::HashMismatch),
        _ => panic!("retry expected"),
    }
    match after_attempt(&f, 1, 2, &TransferOutcome::Body(b"ab".to_vec())) {
        TransferStep::GiveUp(e) => assert_eq!(e, SoftError::LengthMismatch),
        _ => panic!("give up expected"),
    }
    match after_attempt(&f, 1, 2, &TransferOutcome::Body(b"abc".to_vec())) {
        TransferStep::Store { sha } => assert_eq!(sha, ABC_SHA1),
        _ => panic!("store expected"),
    }
}

#[test]
fn downloaded_bytes_validate() {
    let f = file(Some(ABC_SHA1));
    let sha = match after_attempt(&f, 0, 1, &TransferOutcome::Body(b"abc".to_vec())) {
        TransferStep::Store { sha } => sha,
        _ => panic!("store expected"),
    };
    let disk = DiskState {
        file_exist: true,
        file_len: 3,
        file_sha: Some(sha1_hex(b"abc")),
        urltxt_exist: false,
        urltxt_text: None,
    };
    let v = f.validate(&disk, false).unwrap();
    assert!(v.file_valid);
    assert_eq!(v.sha, sha);
    let corrupt = DiskState { file_sha: Some(sha1_hex(b"abd")), ..disk.clone() };
    assert!(!f.validate(&corrupt, false).unwrap().file_valid);
}

#[test]
fn sidecar_round_trip() {
    let text = url_txt_content(" https://example.org/mod.jar \n", ABC_SHA1);
    assert_eq!(text, format!("https://example.org/mod.jar\n{ABC_SHA1}\n"));
    let (url, hash) = url_txt_lines(&text).unwrap();
    assert_eq!(url, "https://example.org/mod.jar");
    assert_eq!(hash, ABC_SHA1);
    assert_eq!(url_txt_lines("a\r\nb\r\n").unwrap(), ("a".to_owned(), "b".to_owned()));
    assert!(url_txt_lines("only one line\n").is_none());
    let f = file(None);
    let disk = DiskState {
        file_exist: true,
        file_len: 3,
        file_sha: Some(ABC_SHA1.to_owned()),
        urltxt_exist: true,
        urltxt_text: Some(text.clone()),
    };
    let v = f.validate(&disk, false).unwrap();
    assert!(v.urltxt_valid);
    assert!(v.file_valid);
    assert_eq!(v.sha, ABC_SHA1);
    let mut nolink = file(None);
    nolink.download_url = None;
    assert_eq!(nolink.validate(&disk, false).unwrap_err(), ValidateError::NoDownloadLink);
    let unknown = f.validate(&DiskState { urltxt_exist: false, urltxt_text: None, ..disk }, false).unwrap();
    assert_eq!(unknown.sha, "");
    assert!(!unknown.file_valid);
}

#[test]
fn part_file_rollback_leaves_target() {
    let g = Finalize::for_part_path("mod.jar".to_owned(), "mod.jar.part".to_owned(), false);
    assert!(!g.is_noop());
    assert!(matches!(&g.finalize[..], [FsAction::ReplaceWithPart { part, path }] if part == "mod.jar.part" && path == "mod.jar"));
    let undo = g.abandon();
    assert_eq!(undo.len(), 1);
    assert!(is_remove(&undo[0], "mod.jar.part"));
    assert!(Finalize::for_part_path("a".to_owned(), "a.part".to_owned(), true).is_noop());
}

#[test]
fn guards_merge_and_commit() {
    let a = Finalize::for_part_path("a".to_owned(), "a.part".to_owned(), false);
    let b = Finalize::guard_file("a.url.txt".to_owned(), false);
    let mut m = a.merge(b);
    assert_eq!(m.finalize.len(), 1);
    assert_eq!(m.cancel.len(), 2);
    let run = m.finalize();
    assert_eq!(run.len(), 1);
    assert!(m.is_noop());
    assert!(Finalize::guard_file("x".to_owned(), true).is_noop());
    assert!(Finalize::noop().is_noop());
}

#[test]
fn batch_commit_keeps_rollback_of_uncommitted() {
    let mut batch = vec![
        Finalize::for_part_path("a".to_owned(), "a.part".to_owned(), false),
        Finalize::for_part_path("b".to_owned(), "b.part".to_owned(), false),
    ];
    let first = Finalize::finalize_slice(&mut batch, 0);
    assert_eq!(first.len(), 1);
    Finalize::mark_committed(&mut batch, 0);
    let second = Finalize::finalize_slice(&mut batch, 1);
    assert_eq!(second.len(), 1);
    let undo = Finalize::abandon_batch(batch);
    assert_eq!(undo.len(), 1);
    assert!(is_remove(&undo[0], "b.part"));
}

#[test]
fn lazy_symlink_staging() {
    assert!(create_guarded_symlink_lazy("c".to_owned(), "c".to_owned(), DestState::Directory).unwrap().is_noop());
    assert_eq!(create_guarded_symlink_lazy("c".to_owned(), "d".to_owned(), DestState::Directory).unwrap_err(), LinkError::Directory);
    let f = create_guarded_symlink_lazy("c".to_owned(), "d".to_owned(), DestState::Missing).unwrap();
    assert!(matches!(&f.finalize[..], [FsAction::Symlink { src, dest }] if src == "c" && dest == "d"));
    assert!(f.cancel.is_empty());
}

#[test]
fn path_naming() {
    let f = file(None);
    let p = f.file_paths_part_new(false);
    assert_eq!(p.path, "mod.jar");
    assert_eq!(p.part_path, "mod.jar.part");
    assert_eq!(p.url_txt_path, "mod.jar.url.txt");
    let d = f.file_paths_part_new(true);
    assert_eq!(d.path, "mod.jar.disabled");
    assert_eq!(d.part_path, "mod.jar.disabled.part");
    assert_eq!(d.url_txt_path, "mod.jar.disabled.url.txt");
    let cur = f.file_paths_part_current(false, true);
    assert!(cur.disabled);
    assert_eq!(cur.part_path, "mod.jar.part");
    let mut c = init(Some("1.18.2".to_owned())).unwrap();
    c.symlink_cache_path = Some("../cache".to_owned());
    let fp = f.file_paths_new(AddonID(42), false, &c);
    assert_eq!(fp.cache_path.as_deref(), Some("../cache/cf_42_7_mod.jar"));
    assert_eq!(fp.download_target(), "../cache/cf_42_7_mod.jar");
    assert_eq!(attached_to_path("x", ".part"), "x.part");
}

#[test]
fn superseded_removal_spares_shared_paths() {
    let old = FilePaths {
        path: "a.jar".to_owned(),
        part_path: "a.jar.part".to_owned(),
        cache_path: None,
        url_txt_path: "a.jar.url.txt".to_owned(),
        disabled: false,
    };
    let same = old.clone();
    assert!(old.remove_if_not_new(&same).is_empty());
    let new = FilePaths { path: "b.jar".to_owned(), url_txt_path: "b.jar.url.txt".to_owned(), ..old.clone() };
    let acts = old.remove_if_not_new(&new);
    assert_eq!(acts.len(), 2);
    assert!(is_remove(&acts[0], "a.jar.url.txt"));
    assert!(is_remove(&acts[1], "a.jar"));
    assert_eq!(old.remove().len(), 2);
}

#[test]
fn write_url_txt_guard() {
    let f = file(Some(ABC_SHA1));
    let paths = f.file_paths_new(AddonID(1), false, &init(Some("1.18.2".to_owned())).unwrap());
    let (text, guard) = f.write_url_txt(&paths, ABC_SHA1, false).unwrap();
    assert_eq!(text, format!("https://example.org/mod.jar\n{ABC_SHA1}\n"));
    assert_eq!(guard.cancel.len(), 1);
    let staged = f.stage_commit(&paths, false, true, DestState::Missing).unwrap();
    assert_eq!(staged.cancel.len(), 1);
    assert!(f.stage_commit(&paths, false, false, DestState::Missing).unwrap().is_noop());
    assert!(f.stage_commit(&paths, true, true, DestState::Missing).unwrap().is_noop());
}

#[test]
fn parse_date_test() {
    cursinator::transfer::parse_date("2021-02-13T20:36:05Z").unwrap();
    cursinator::transfer::parse_date("2021-02-13T20:36:05Z").unwrap();
}

#[test]
fn parse_date_without_zone() {
    assert_eq!(cursinator::transfer::parse_date("2021-02-13T20:36:05"), Some(1613248565));
    assert_eq!(cursinator::transfer::parse_date("yesterday"), None);
}

#[test]
fn repair_after_validation() {
    let mut v = ValidateResult { sha: String::new(), file_exist: true, file_valid: false, urltxt_exist: false, urltxt_valid: false };
    assert_eq!(validate_download(&v, true, false), Repair::Download);
    v.file_valid = true;
    assert_eq!(validate_download(&v, true, false), Repair::WriteUrlTxt);
    assert_eq!(validate_download(&v, true, true), Repair::Nothing);
    v.urltxt_valid = true;
    assert_eq!(validate_download(&v, true, false), Repair::Nothing);
}

#[test]
fn retry_wait_from_parsed_date() {
    use_wait();
}

fn use_wait() {
    assert_eq!(cursinator::transfer::retry_wait_given(Some(110), "ignored", 16, 100), 11);
    assert_eq!(cursinator::transfer::retry_wait_given(Some(90), "ignored", 16, 100), 16);
    assert_eq!(cursinator::transfer::retry_wait_given(None, "7", 16, 100), 7);
    assert_eq!(cursinator::transfer::retry_wait_given(None, "x", 16, 100), 16);
}

#[test]
fn sidecar_fixup_follows_disabled_state() {
    let f = file(None);
    let r = f.url_txt_fixup(true, true, true, false, false, true).unwrap();
    assert_eq!(r, ("mod.jar.url.txt".to_owned(), "mod.jar.disabled.url.txt".to_owned()));
    let back = f.url_txt_fixup(false, false, false, true, true, true).unwrap();
    assert_eq!(back, ("mod.jar.disabled.url.txt".to_owned(), "mod.jar.url.txt".to_owned()));
    assert!(f.url_txt_fixup(true, true, true, false, false, false).is_none());
    assert!(f.url_txt_fixup(false, true, true, true, true, true).is_none());
}
