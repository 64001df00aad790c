//! The files of a round: where they lie, which are kept and how they are brought.

use shows::filesync::{
    checking_notice, copying_notice, done_notice, file_step, FileAction, FileEvent, FileSyncReport,
};
use shows::paths::{
    canonicalize_existing_ancestor, comparable_path_key, get_local_path, is_unused,
    is_usable_cached_file, resolved_path_key, with_backslashes, Ancestor,
};
use shows::rounds::RoundEntry;

fn entry() -> RoundEntry {
    RoundEntry {
        show_id: "s1".to_string(),
        show_name: "Show".to_string(),
        episode_id: "e1".to_string(),
        local_path: vec!["Show".to_string(), "e1.mkv".to_string()],
        nas_absolute_path: "S:\\Show\\e1.mkv".to_string(),
        relative_path: "e1.mkv".to_string(),
        order_value: 1,
        playlist: "nelson".to_string(),
        position: 0,
    }
}

#[test]
fn local_path_mapping_matches_env_or_default() {
    let show_name = "Dr. Katz";
    let relative_path = "S01\\E01.mkv";

    let path = get_local_path(show_name, relative_path);
    assert!(path.ends_with(&["Dr. Katz".to_string(), "S01".to_string(), "E01.mkv".to_string()]));
}

#[test]
fn comparable_path_key_normalizes_windows_case() {
    let upper = comparable_path_key(r"D:\Downloads\Watching\Show\E01.mkv", true);
    let lower = comparable_path_key(r"d:\downloads\watching\show\e01.mkv", true);

    assert_eq!(upper, lower);
}

#[test]
fn comparable_path_key_normalizes_verbatim_windows_prefix() {
    let normal = comparable_path_key(r"D:\Downloads\Watching\Show\E01.mkv", true);
    let verbatim = comparable_path_key(r"\\?\D:\Downloads\Watching\Show\E01.mkv", true);

    assert_eq!(normal, verbatim);
}

#[test]
fn prune_keeps_file_marked_active_before_it_exists() {
    let active_key = comparable_path_key("/tmp/base/Show/S01/E01.mkv", false);
    let active = [active_key.clone()];
    assert!(!is_unused(&comparable_path_key("/tmp/base/Show/S01/E01.mkv", false), &active));
    assert!(is_unused(&comparable_path_key("/tmp/base/Stale/old.mkv", false), &active));
}

#[test]
fn cache_hit_accepts_only_non_empty_local_files() {
    assert!(!is_usable_cached_file(None)); // missing
    assert!(!is_usable_cached_file(Some((true, 0)))); // empty
    assert!(is_usable_cached_file(Some((true, 12)))); // cached
    assert!(!is_usable_cached_file(Some((false, 12)))); // a folder
}

#[test]
fn slashes_are_turned() {
    assert_eq!(with_backslashes("a/b\\c/d"), "a\\b\\c\\d");
    assert_eq!(get_local_path("S", "a/b\\\\c"), ["S", "a", "b", "c"]);
}

#[test]
fn a_file_that_is_cached_is_not_copied() {
    let mut report = FileSyncReport::default();
    let e = entry();
    assert!(matches!(file_step(&mut report, &e, "D:\\x", FileEvent::Begin), FileAction::CheckCache));
    assert!(matches!(file_step(&mut report, &e, "D:\\x", FileEvent::Cached(true)), FileAction::Done));
    assert_eq!(report.cached, 1);
    assert!(!report.incomplete());
    assert_eq!(report.summary(), "1 cached");
}

#[test]
fn a_file_is_copied_into_its_folder() {
    let mut report = FileSyncReport::default();
    let e = entry();
    assert!(matches!(file_step(&mut report, &e, "D:\\x", FileEvent::Cached(false)), FileAction::CheckSource));
    assert!(matches!(file_step(&mut report, &e, "D:\\x", FileEvent::Source(true)), FileAction::MakeFolder));
    assert!(matches!(file_step(&mut report, &e, "D:\\x", FileEvent::Folder(Ok(()))), FileAction::Copy));
    assert!(matches!(file_step(&mut report, &e, "D:\\x", FileEvent::Copied(Ok(()))), FileAction::Done));
    assert_eq!(report.copied, 1);
    assert!(report.problems.is_empty());
}

#[test]
fn what_goes_wrong_is_written_down() {
    let mut report = FileSyncReport::default();
    let e = entry();
    assert!(matches!(file_step(&mut report, &e, "D:\\x", FileEvent::Source(false)), FileAction::Done));
    assert_eq!(report.missing, 1);
    assert!(report.incomplete());
    assert_eq!(report.problems[0].source_path, "S:\\Show\\e1.mkv");
    assert_eq!(report.problems[0].local_path, "D:\\x");
    file_step(&mut report, &e, "D:\\x", FileEvent::Copied(Err("disk full".to_string())));
    file_step(&mut report, &e, "D:\\x", FileEvent::Folder(Err("denied".to_string())));
    assert_eq!(report.failed, 2);
    assert_eq!(report.problems.len(), 3);
    assert!(report.problems[1].reason.contains("disk full"));
    assert!(report.problems[2].reason.contains("denied"));
}

#[test]
fn notices_say_what_is_done() {
    assert!(!checking_notice().text.is_empty());
    assert!(copying_notice(&entry()).text.contains("Show"));
    assert!(done_notice(&FileSyncReport::default()).duration_ms > 0);
}

fn asked(resolved: Option<&str>, name: Option<&str>) -> Ancestor {
    Ancestor { resolved: resolved.map(str::to_string), name: name.map(str::to_string) }
}

#[test]
fn comparable_path_key_is_stable_across_file_existence() {
    // A redundant ".." so that the raw form is spelled otherwise than the resolved one.
    let file = "/tmp/x/Show/S01/../S01/E01.mkv";
    let before = resolved_path_key(
        file,
        &[asked(None, Some("E01.mkv")), asked(Some("/tmp/x/Show/S01"), Some("S01"))],
        false,
    );
    let after = resolved_path_key(
        file,
        &[asked(Some("/tmp/x/Show/S01/E01.mkv"), Some("E01.mkv"))],
        false,
    );
    assert_eq!(before, after);
    assert_eq!(after, r"\tmp\x\Show\S01\E01.mkv");
}

#[test]
fn the_first_folder_that_exists_is_resolved() {
    let upwards = [
        asked(None, Some("E01.mkv")),
        asked(None, Some("S01")),
        asked(Some(r"\\?\D:\Watching"), Some("Watching")),
    ];
    assert_eq!(
        canonicalize_existing_ancestor(r"D:\WATCHI~1\S01\E01.mkv", &upwards, true),
        r"\\?\D:\Watching\S01\E01.mkv"
    );
    assert_eq!(
        resolved_path_key(r"D:\WATCHI~1\S01\E01.mkv", &upwards, true),
        r"d:\watching\s01\e01.mkv"
    );
    let root = [asked(None, Some("a")), asked(Some("/"), None)];
    assert_eq!(canonicalize_existing_ancestor("/a", &root, false), "/a");
    let nameless = [asked(None, None), asked(Some("/"), None)];
    assert_eq!(canonicalize_existing_ancestor("a/..", &nameless, false), "a/..");
    assert_eq!(canonicalize_existing_ancestor("a", &[asked(None, Some("a"))], false), "a");
}

#[test]
fn keys_are_plain() {
    let key = comparable_path_key(r"\\?\UNC/NAS/Shows/A\", true);
    assert_eq!(key, r"\\nas\shows\a");
    assert!(!key.contains('/'));
}
