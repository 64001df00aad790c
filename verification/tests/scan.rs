//! The episodes that a walk of a folder finds.

use shows::scan::{is_video, natural_key, put_in_natural_order, scan_episodes, FoundFile, KeyPart};

fn file(path: &str) -> FoundFile {
    FoundFile {
        path: path.to_string(),
        extension: path.rsplit_once('.').map(|(_, e)| e.to_string()),
    }
}

#[test]
fn finds_videos_natural_sorted() {
    let found = [
        file("S01/S01E02.mkv"),
        file("S01/S01E10.mkv"),
        file("S01/S01E01.mkv"),
        file("S01/readme.txt"),
        file("S01/poster.jpg"),
        file("extra.avi"),
    ];
    let out = scan_episodes(&found);
    // video files only; natural order (E02 before E10); backslash relative paths
    assert_eq!(out, ["extra.avi", "S01\\S01E01.mkv", "S01\\S01E02.mkv", "S01\\S01E10.mkv"]);
}

#[test]
fn ignores_non_video_and_empty() {
    assert!(scan_episodes(&[file("a.txt"), file("b.nfo")]).is_empty());
    assert!(scan_episodes(&[]).is_empty());
    assert!(scan_episodes(&[file("noextension")]).is_empty());
}

#[test]
fn extensions_are_read_in_any_case() {
    assert!(is_video(Some("MKV")));
    assert!(is_video(Some("m2ts")));
    assert!(!is_video(Some("mkv2")));
    assert!(!is_video(None));
}

#[test]
fn keys_part_text_and_numbers() {
    let key = natural_key("Ab12c");
    assert_eq!(key.len(), 3);
    assert!(matches!(&key[0], KeyPart::Text(t) if t == "ab"));
    assert!(matches!(&key[1], KeyPart::Num(12)));
    assert!(matches!(&key[2], KeyPart::Text(t) if t == "c"));
    // a run of digits that is too long stands for the highest number
    let long = natural_key("99999999999999999999999");
    assert!(matches!(&long[1], KeyPart::Num(n) if *n == u64::MAX));
}

#[test]
fn names_with_the_same_key_keep_their_order() {
    let names = vec!["b1".to_string(), "B01".to_string(), "a".to_string()];
    assert_eq!(put_in_natural_order(names), ["a", "b1", "B01"]);
}
