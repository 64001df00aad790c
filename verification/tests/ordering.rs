//! The order of a round, and the playlists that it is drawn from.

use shows::ordering::{digest_key, join_path, order_value, sort_round, Candidate};
use shows::roundlogic::parse_playlists;

#[test]
fn order_value_matches_canonical_sha256() {
    // The first four hexadecimal digits of the digest, as a number.
    assert_eq!(order_value("D:\\Shows\\foo\\bar.mkv"), 52416); // ccc0
    assert_eq!(order_value("D:\\Shows\\zzz.mkv"), 2883); // 0b43
    assert_eq!(order_value("a"), 51863); // ca97
}

#[test]
fn digest_key_is_the_first_two_bytes() {
    assert_eq!(digest_key(&[0xca, 0x97, 0x81]), 51863);
    assert_eq!(digest_key(&[0, 1]), 1);
}

#[test]
fn join_path_normalizes_separators() {
    assert_eq!(join_path("D:\\Shows\\", "\\foo\\bar.mkv"), "D:\\Shows\\foo\\bar.mkv");
    assert_eq!(join_path("D:\\Shows", "foo\\bar.mkv"), "D:\\Shows\\foo\\bar.mkv");
    assert_eq!(join_path("D:/Shows/", "/x"), "D:/Shows\\x");
}

#[test]
fn sort_round_orders_by_value_then_episode_id() {
    let cands = vec![
        Candidate {
            episode_id: "e-zzz".to_string(),
            show_id: "s".to_string(),
            root_path: "D:\\Shows".to_string(),
            relative_path: "zzz.mkv".to_string(), // 2883
        },
        Candidate {
            episode_id: "e-foo".to_string(),
            show_id: "s".to_string(),
            root_path: "D:\\Shows".to_string(),
            relative_path: "foo\\bar.mkv".to_string(), // 52416
        },
    ];
    let out = sort_round(&cands);
    assert_eq!(out[0].episode_id, "e-zzz");
    assert_eq!(out[0].order_value, 2883);
    assert_eq!(out[1].episode_id, "e-foo");
    assert_eq!(out[1].order_value, 52416);
    assert_eq!(out[1].absolute_path, "D:\\Shows\\foo\\bar.mkv");
}

#[test]
fn sort_round_breaks_ties_by_episode_id() {
    let mk = |eid: &str| Candidate {
        episode_id: eid.to_string(),
        show_id: "s".to_string(),
        root_path: "D:\\Shows".to_string(),
        relative_path: "same.mkv".to_string(),
    };
    let out = sort_round(&[mk("e-b"), mk("e-a")]);
    assert_eq!(out[0].episode_id, "e-a");
    assert_eq!(out[1].episode_id, "e-b");
}

#[test]
fn sort_round_does_not_depend_on_the_order_of_its_candidates() {
    let mk = |eid: &str, rel: &str| Candidate {
        episode_id: eid.to_string(),
        show_id: "s".to_string(),
        root_path: "D:\\Shows".to_string(),
        relative_path: rel.to_string(),
    };
    let forth = sort_round(&[mk("1", "zzz.mkv"), mk("2", "foo\\bar.mkv"), mk("3", "zzz.mkv")]);
    let back = sort_round(&[mk("3", "zzz.mkv"), mk("2", "foo\\bar.mkv"), mk("1", "zzz.mkv")]);
    assert_eq!(forth, back);
}

#[test]
fn default_when_empty() {
    assert_eq!(parse_playlists("", &["nelson"]), ["nelson"]);
    assert_eq!(parse_playlists("   ", &["nelson"]), ["nelson"]);
}

#[test]
fn trims_and_drops_blanks() {
    assert_eq!(parse_playlists(" a , b ,, c ", &["x"]), ["a", "b", "c"]);
}

#[test]
fn single() {
    assert_eq!(parse_playlists("couple", &["nelson"]), ["couple"]);
}
