//! What a show's next episode is, and how watching and deferring change it.

use shows::engine::{advance, all_watched, defer, first_unwatched, next_round, Episode, Show};

const NOW: &str = "2026-05-28T12:00:00Z";
const EARLIER: &str = "2026-05-28T11:00:00Z";

fn ep(id: &str, pos: i64, watched: Option<&str>) -> Episode {
    Episode {
        id: id.to_string(),
        relative_path: format!("{id}.mkv"),
        position: pos,
        watched_at: watched.map(String::from),
        resume_pos: None,
    }
}

fn show(id: &str, playlist: &str, root: &str, eps: Vec<Episode>, removed_at: Option<&str>) -> Show {
    Show {
        id: id.to_string(),
        playlist: playlist.to_string(),
        name: id.to_uppercase(),
        root_path: root.to_string(),
        episodes: eps,
        removed_at: removed_at.map(String::from),
        date_added: None,
    }
}

#[test]
fn first_unwatched_lowest_position() {
    let eps = [ep("c", 2, None), ep("a", 0, None), ep("b", 1, None)];
    assert_eq!(first_unwatched(&eps).unwrap().id, "a");
}

#[test]
fn first_unwatched_skips_watched_even_lower() {
    let eps = [ep("a", 0, Some(NOW)), ep("b", 1, None)];
    assert_eq!(first_unwatched(&eps).unwrap().id, "b");
}

#[test]
fn first_unwatched_none_when_all_watched_or_empty() {
    assert!(first_unwatched(&[ep("a", 0, Some(NOW)), ep("b", 1, Some(NOW))]).is_none());
    assert!(first_unwatched(&[]).is_none());
}

#[test]
fn first_unwatched_prefers_the_first_of_equal_positions() {
    let eps = [ep("x", 1, None), ep("y", 1, None)];
    assert_eq!(first_unwatched(&eps).unwrap().id, "x");
}

#[test]
fn all_watched_works() {
    assert!(!all_watched(&[ep("a", 0, None), ep("b", 1, Some(NOW))]));
    assert!(all_watched(&[ep("a", 0, Some(NOW))]));
}

#[test]
fn advance_subset_only_named() {
    let mut s = show("s1", "nelson", "D:\\A", vec![ep("a", 0, None), ep("b", 1, None)], None);
    let (history, n, removed) = advance(&mut s, &["a".to_string()], NOW);
    assert_eq!(n, 1);
    assert!(!removed);
    assert_eq!(s.episodes[0].watched_at.as_deref(), Some(NOW));
    assert!(s.episodes[1].watched_at.is_none());
    assert_eq!(history.iter().map(|h| h.episode_id.as_str()).collect::<Vec<_>>(), ["a"]);
}

#[test]
fn advance_idempotent() {
    let mut s = show("s1", "nelson", "D:\\A", vec![ep("a", 0, Some(EARLIER)), ep("b", 1, None)], None);
    let (history, n, removed) = advance(&mut s, &["a".to_string()], NOW);
    assert_eq!(n, 0);
    assert!(!removed);
    assert!(history.is_empty());
    assert_eq!(s.episodes[0].watched_at.as_deref(), Some(EARLIER)); // not overwritten
}

#[test]
fn advance_tombstones_when_drained() {
    let mut s = show("s1", "nelson", "D:\\A", vec![ep("a", 0, Some(EARLIER)), ep("b", 1, None)], None);
    let (_, n, removed) = advance(&mut s, &["b".to_string()], NOW);
    assert_eq!(n, 1);
    assert!(removed);
    assert_eq!(s.removed_at.as_deref(), Some(NOW));
}

#[test]
fn advance_whole_round_drains() {
    let mut s = show("s1", "nelson", "D:\\A", vec![ep("a", 0, None), ep("b", 1, None)], None);
    let (history, n, removed) = advance(&mut s, &["a".to_string(), "b".to_string()], NOW);
    assert_eq!(n, 2);
    assert!(removed);
    assert_eq!(history.len(), 2);
    assert_eq!(history[1].relative_path, "b.mkv");
    assert_eq!(history[1].show_id, "s1");
    assert_eq!(history[1].played_at, NOW);
}

#[test]
fn advance_unknown_id_noop() {
    let mut s = show("s1", "nelson", "D:\\A", vec![ep("a", 0, None)], None);
    let (_, n, removed) = advance(&mut s, &["nope".to_string()], NOW);
    assert_eq!(n, 0);
    assert!(!removed);
    assert!(s.episodes[0].watched_at.is_none());
}

#[test]
fn defer_bumps_and_changes_pick() {
    let mut eps = vec![ep("a", 0, None), ep("b", 1, None), ep("c", 2, None)];
    assert!(defer(&mut eps, "a"));
    assert_eq!(eps[0].position, 3);
    assert!(eps[0].watched_at.is_none());
    assert_eq!(first_unwatched(&eps).unwrap().id, "b");
}

#[test]
fn defer_watched_or_absent_is_noop() {
    let mut eps = vec![ep("a", 0, Some(NOW)), ep("b", 1, None)];
    assert!(!defer(&mut eps, "a")); // watched
    assert!(!defer(&mut eps, "nope")); // absent
    assert_eq!(eps, vec![ep("a", 0, Some(NOW)), ep("b", 1, None)]);
}

#[test]
fn next_round_one_per_active_show_skips_drained_and_removed() {
    let shows = vec![
        show("s1", "nelson", "D:\\A", vec![ep("a", 0, None), ep("b", 1, Some(NOW))], None),
        show("s2", "nelson", "D:\\B", vec![ep("c", 0, Some(NOW))], None), // drained
        show("s3", "nelson", "D:\\C", vec![ep("d", 0, None)], Some(NOW)), // tombstoned
        show("s4", "couple", "D:\\D", vec![ep("e", 0, None)], None),      // other playlist
    ];
    let out = next_round(&shows);
    let picked: std::collections::BTreeSet<&str> = out.iter().map(|o| o.show_id.as_str()).collect();
    assert_eq!(picked, ["s1", "s4"].into_iter().collect());
}

#[test]
fn next_round_deterministic_ascending_union() {
    let shows = vec![
        show("s1", "nelson", "D:\\A", vec![ep("a", 0, None)], None),
        show("s2", "couple", "D:\\B", vec![ep("b", 0, None)], None),
        show("s3", "nelson", "D:\\C", vec![ep("c", 0, None)], None),
    ];
    let out = next_round(&shows);
    let vals: Vec<u32> = out.iter().map(|o| o.order_value).collect();
    let mut sorted = vals.clone();
    sorted.sort_unstable();
    assert_eq!(vals, sorted); // round order is ascending by the hash key
    assert_eq!(out.len(), 3);
}

#[test]
fn a_round_over_playlists_is_one_round() {
    let a = vec![
        show("s1", "x", "D:\\A", vec![ep("a1", 0, None)], None),
        show("s2", "x", "D:\\B", vec![ep("b1", 0, None)], None),
    ];
    let b = vec![
        show("s3", "y", "D:\\C", vec![ep("c1", 0, None)], None),
        show("s4", "y", "D:\\D", vec![ep("d1", 0, None)], None),
    ];
    let ids = |shows: &[Show]| -> Vec<(u32, String)> {
        next_round(shows).into_iter().map(|o| (o.order_value, o.episode_id)).collect()
    };
    let together = ids(&[a.clone(), b.clone()].concat());
    assert_eq!(together, ids(&[b.clone(), a.clone()].concat()));
    let mut merged = [ids(&a), ids(&b)].concat();
    merged.sort();
    assert_eq!(together, merged);
    let mut renamed = a.clone();
    for s in &mut renamed {
        s.name = "other".to_string();
        s.playlist = "z".to_string();
    }
    assert_eq!(ids(&renamed), ids(&a));
}
