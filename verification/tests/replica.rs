//! The library: what is read out of it and what each change leaves in it.

use std::cell::RefCell;
use std::collections::BTreeSet;

use shows::engine::{first_unwatched, next_round, Show};
use shows::replica::{EpisodePlaybackPreferences, Replica};
use shows::tables::{EpisodeRow, ShowRow};

const T0: &str = "2026-01-01T00:00:00Z";

fn list(items: &[&str]) -> Vec<String> {
    items.iter().map(|s| s.to_string()).collect()
}

fn add_show(r: &mut Replica, id: &str, playlist: &str, root: &str, episodes: &[(&str, &str, i64)]) {
    r.shows.push(ShowRow {
        id: id.to_string(),
        playlist: playlist.to_string(),
        name: id.to_uppercase(),
        root_path: root.to_string(),
        date_added: None,
        removed_at: None,
        updated_at: T0.to_string(),
    });
    for (eid, rel, pos) in episodes {
        r.episodes.push(EpisodeRow {
            id: eid.to_string(),
            show_id: id.to_string(),
            relative_path: rel.to_string(),
            position: *pos,
            watched_at: None,
            resume_pos: None,
            updated_at: T0.to_string(),
        });
    }
}

fn seeded() -> Replica {
    let mut r = Replica::new();
    add_show(&mut r, "s1", "nelson", "D:\\A", &[("a", "a.mkv", 0), ("b", "b.mkv", 1)]);
    add_show(&mut r, "s2", "nelson", "D:\\B", &[("c", "c.mkv", 0)]);
    r
}

fn ids(shows: &[Show]) -> BTreeSet<&str> {
    shows.iter().map(|s| s.id.as_str()).collect()
}

fn pair(show: &str, episode: &str) -> (String, String) {
    (show.to_string(), episode.to_string())
}

fn secs(s: f64) -> Option<u64> {
    Some(s.to_bits())
}

#[test]
fn separate_apps_observe_shared_commits_and_last_write_wins() {
    let shared = RefCell::new(Replica::new());
    let (first, second) = (&shared, &shared);
    let show_id = first
        .borrow_mut()
        .create_show("nelson", "original", r"S:\Shows\Original", &[])
        .unwrap();
    let after_create = second.borrow().revision();

    assert_eq!(second.borrow().show(&show_id).unwrap().name, "original");
    second.borrow_mut().update_show(&show_id, Some("second app"), None, None);
    assert_eq!(first.borrow().show(&show_id).unwrap().name, "second app");
    assert!(first.borrow().revision() > after_create);

    first.borrow_mut().update_show(&show_id, Some("first app last"), None, None);
    assert_eq!(second.borrow().show(&show_id).unwrap().name, "first app last");
}

#[test]
fn seed_and_next_round() {
    let r = seeded();
    let shows = r.active_shows(&list(&["nelson"]));
    assert_eq!(ids(&shows), ["s1", "s2"].into_iter().collect());
    let rnd = next_round(&shows);
    let rids: BTreeSet<&str> = rnd.iter().map(|o| o.show_id.as_str()).collect();
    assert_eq!(rids, ["s1", "s2"].into_iter().collect());
    assert_eq!(rnd.iter().find(|o| o.show_id == "s1").unwrap().episode_id, "a");
}

#[test]
fn advance_persists_and_advances_pick() {
    let mut r = seeded();
    let (n, removed) = r.advance(&[pair("s1", "a")]);
    assert_eq!(n, 1);
    assert!(removed.is_empty());
    let s1 = r.show("s1").unwrap();
    assert!(s1.episodes.iter().find(|e| e.id == "a").unwrap().watched_at.is_some());
    let nr = next_round(&r.active_shows(&list(&["nelson"])));
    assert_eq!(nr.iter().find(|o| o.show_id == "s1").unwrap().episode_id, "b");
    assert_eq!(r.history.len(), 1);
}

#[test]
fn advance_tombstones_drained_show() {
    let mut r = seeded();
    let (n, removed) = r.advance(&[pair("s2", "c")]);
    assert_eq!(n, 1);
    assert_eq!(removed, ["s2"]);
    assert!(r.show("s2").unwrap().removed_at.is_some());
    assert_eq!(ids(&r.active_shows(&list(&["nelson"]))), ["s1"].into_iter().collect());
}

#[test]
fn advancing_twice_changes_nothing_the_second_time() {
    let mut r = seeded();
    r.advance_at(&[pair("s1", "a")], T0, &list(&["h1"]));
    let revision = r.revision();
    let (n, removed) = r.advance_at(&[pair("s1", "a")], "2027-01-01T00:00:00Z", &list(&["h2"]));
    assert_eq!(n, 0);
    assert!(removed.is_empty());
    assert_eq!(r.revision(), revision);
    assert_eq!(r.history.len(), 1);
    assert_eq!(r.show("s1").unwrap().episodes[0].watched_at.as_deref(), Some(T0));
}

#[test]
fn defer_persists_position_and_changes_pick() {
    let mut r = seeded();
    assert!(r.defer("s1", "a"));
    let s1 = r.show("s1").unwrap();
    assert_eq!(s1.episodes.iter().find(|e| e.id == "a").unwrap().position, 2);
    assert_eq!(first_unwatched(&s1.episodes).unwrap().id, "b");
    r.advance(&[pair("s1", "b")]);
    assert!(!r.defer("s1", "b")); // now watched -> no-op
}

#[test]
fn a_position_at_the_end_of_the_numbers_leaves_no_room() {
    let mut r = seeded();
    assert!(r.has_room_behind("s1"));
    r.episodes[1].position = i64::MAX;
    assert!(!r.has_room_behind("s1"));
    assert!(r.has_room_behind("s2"));
}

#[test]
fn set_resume_persists() {
    let mut r = seeded();
    r.set_resume("a", secs(123.5), false);
    assert_eq!(r.resume_pos("a"), secs(123.5));
}

#[test]
fn episode_playback_preferences_are_local_to_episode() {
    let mut r = seeded();
    r.set_subtitle_track("a", "no");
    r.set_audio_track("a", "2");

    let a = r.playback_preferences("a");
    assert_eq!(a.subtitle_track.as_deref(), Some("no"));
    assert_eq!(a.audio_track.as_deref(), Some("2"));
    let b = r.playback_preferences("b");
    assert_eq!(b, EpisodePlaybackPreferences { subtitle_track: None, audio_track: None });
}

#[test]
fn set_resume_within_tolerance_does_not_write() {
    let mut r = seeded();
    r.set_resume("a", secs(123.5), false);
    let revision = r.revision();

    let close = (123.5f64 - 123.6f64).abs() < 0.5;
    r.set_resume("a", secs(123.6), close);

    assert_eq!(r.revision(), revision);
    assert_eq!(r.resume_pos("a"), secs(123.5));
}

#[test]
fn advance_clears_resume_pos() {
    // A finished episode has no meaningful resume point; clearing it means
    // stepping back to it ('previous') replays from the start, not the end.
    let mut r = seeded();
    r.set_resume("a", secs(123.5), false);
    r.advance(&[pair("s1", "a")]);
    assert_eq!(r.resume_pos("a"), None);
}

#[test]
fn create_show_is_in_round() {
    let mut r = Replica::new();
    let sid = r.create_show("nelson", "New", "D:\\New", &list(&["e1.mkv", "e2.mkv"])).unwrap();
    assert!(!sid.is_empty());
    let me = r
        .active_shows(&list(&["nelson"]))
        .into_iter()
        .find(|s| s.id == sid)
        .unwrap();
    assert_eq!(me.episodes.len(), 2);
    assert_eq!(me.episodes[1].relative_path, "e2.mkv");
    assert_eq!(me.episodes[1].position, 1);
}

#[test]
fn remove_show_tombstones() {
    let mut r = Replica::new();
    let sid = r.create_show("nelson", "X", "D:\\X", &list(&["a.mkv"])).unwrap();
    assert!(r.remove_show(&sid));
    assert!(r.active_shows(&list(&["nelson"])).iter().all(|s| s.id != sid));
    assert!(!r.remove_show("nope"));
}

#[test]
fn remove_show_preserves_queued_round_entry() {
    let mut r = Replica::new();
    let sid = r.create_show("nelson", "X", "D:\\X", &list(&["a.mkv"])).unwrap();
    let show = r.show(&sid).unwrap();
    let eid = show.episodes[0].id.clone();
    r.save_round_queue(&[(eid, sid.clone(), 0, "pending".to_string(), "nelson".to_string())], T0);

    assert!(r.remove_show(&sid));
    assert!(r.get_round_queue().iter().any(|row| row.show_id == sid));
}

#[test]
fn rescan_episodes_appends_positions() {
    let mut r = Replica::new();
    let sid = r.create_show("nelson", "X", "D:\\X", &list(&["a.mkv", "b.mkv"])).unwrap();
    assert_eq!(
        r.rescan_episodes(&sid, &list(&["a.mkv", "b.mkv", "c.mkv"])).unwrap().len(),
        1
    );
    let c = r
        .show(&sid)
        .unwrap()
        .episodes
        .into_iter()
        .find(|e| e.relative_path == "c.mkv")
        .unwrap();
    assert_eq!(c.position, 2); // continues after a(0), b(1)
}

#[test]
fn episode_paths_and_update_show() {
    let mut r = Replica::new();
    let sid = r.create_show("nelson", "X", "D:\\X", &list(&["a.mkv", "b.mkv"])).unwrap();
    let paths: BTreeSet<String> = r.episode_paths(&sid).into_iter().collect();
    assert_eq!(paths, ["a.mkv".to_string(), "b.mkv".to_string()].into_iter().collect());
    assert!(r.update_show(&sid, Some("Y"), None, Some("couple")));
    let s = r.show(&sid).unwrap();
    assert_eq!(s.name, "Y");
    assert_eq!(s.playlist, "couple");
    assert_eq!(s.root_path, "D:\\X");
}

#[test]
fn stats_counts_progress_and_finished() {
    let mut r = Replica::new();
    let a = r.create_show("nelson", "A", "D:\\A", &list(&["a1.mkv", "a2.mkv"])).unwrap();
    let b = r.create_show("nelson", "B", "D:\\B", &list(&["b1.mkv"])).unwrap();
    let a0 = r.show(&a).unwrap().episodes[0].id.clone();
    let b0 = r.show(&b).unwrap().episodes[0].id.clone();
    r.advance(&[(a, a0), (b, b0)]); // b drains -> finished
    let s = r.stats(&list(&["nelson"]));
    assert_eq!(s["total_shows"], 2);
    assert_eq!(s["episodes_total"], 3);
    assert_eq!(s["episodes_watched"], 2);
    assert_eq!(s["finished_shows"], 1);
    assert_eq!(s["recent"].as_array().unwrap().len(), 2);
    let per = s["per_show"].as_array().unwrap();
    let pa = per.iter().find(|p| p["name"] == "A").unwrap();
    assert_eq!(pa["watched"], 1);
    assert_eq!(pa["total"], 2);
    let pb = per.iter().find(|p| p["name"] == "B").unwrap();
    assert_eq!(pb["removed"], true);
}

#[test]
fn remove_round_entry_preserves_rest() {
    let mut r = Replica::new();
    let entries = vec![
        ("ep1".to_string(), "s1".to_string(), 0, "pending".to_string(), "nelson".to_string()),
        ("ep2".to_string(), "s2".to_string(), 1, "pending".to_string(), "nelson".to_string()),
    ];
    r.save_round_queue(&entries, "2026-05-31T00:00:00Z");

    assert_eq!(r.remove_round_entry("ep1"), Some(("s1".to_string(), "nelson".to_string())));

    let q = r.get_round_queue();
    assert_eq!(q.len(), 1);
    assert_eq!(q[0].episode_id, "ep2");
    assert_eq!(q[0].dirty, 0);
    assert_eq!(r.remove_round_entry("ep2"), Some(("s2".to_string(), "nelson".to_string())));
    assert!(r.get_round_queue().is_empty());
    assert_eq!(r.remove_round_entry("ep2"), None);
}

#[test]
fn a_show_is_marked_watched_and_unwatched_whole() {
    let mut r = seeded();
    assert!(r.mark_show_watched("s1"));
    let s1 = r.show("s1").unwrap();
    assert!(s1.episodes.iter().all(|e| e.watched_at.is_some()));
    assert!(r.mark_show_unwatched("s1"));
    let s1 = r.show("s1").unwrap();
    assert!(s1.episodes.iter().all(|e| e.watched_at.is_none()));
    assert!(s1.removed_at.is_none());
    assert!(!r.mark_show_watched("nope"));
}

#[test]
fn the_volume_reads_back() {
    let mut r = Replica::new();
    assert_eq!(r.get_volume(), None);
    r.set_volume("55.5");
    assert_eq!(r.get_volume().as_deref(), Some("55.5"));
}

#[test]
fn the_history_of_a_show_is_told() {
    let mut r = seeded();
    r.advance_at(&[pair("s1", "a")], T0, &list(&["h1"]));
    let told = r.show_history("s1");
    assert_eq!(told.len(), 1);
    assert_eq!(told[0]["played_at"], T0);
    assert!(r.show_history("s2").is_empty());
    let last = r.removed_show("s1");
    assert_eq!(last.id, "s1");
    assert_eq!(last.last_played_at, T0);
}

#[test]
fn the_sidebar_lists_active_shows() {
    let mut r = seeded();
    r.remove_show("s2");
    let told = r.overlay_shows(&list(&["nelson"]));
    assert_eq!(told.len(), 1);
    assert_eq!(told[0]["id"], "s1");
    assert_eq!(told[0]["playlist"], "nelson");
    assert_eq!(told[0]["name"], "S1");
    assert_eq!(told[0]["root_path"], "D:\\A");
    assert_eq!(told[0]["date_added"], "");
    assert!(told[0]["removed_at"].is_null());
    assert!(r.overlay_shows(&list(&["couple"])).is_empty());
}

#[test]
fn a_finished_show_is_revealed_with_its_last_play() {
    let mut r = seeded();
    r.advance_at(&[pair("s2", "c")], T0, &list(&["h1"]));
    let told = r.reveal_show("s2");
    assert_eq!(told["id"], "s2");
    assert_eq!(told["name"], "S2");
    assert_eq!(told["date_added"], "");
    assert_eq!(told["last_played_at"], T0);
    assert_eq!(r.reveal_show("nope")["name"], "");
}

#[test]
fn an_entry_of_the_round_takes_a_state() {
    let mut r = Replica::new();
    let entries = vec![
        ("ep1".to_string(), "s1".to_string(), 0, "pending".to_string(), "nelson".to_string()),
        ("ep2".to_string(), "s2".to_string(), 1, "pending".to_string(), "nelson".to_string()),
    ];
    r.save_round_queue(&entries, T0);
    r.update_round_entry_state("ep1", "watched", "nelson");
    let q = r.get_round_queue();
    assert_eq!(q[0].state, "watched");
    assert_eq!(q[1].state, "pending");
    assert!(q[0].updated_at.as_str() > T0);
}

#[test]
fn a_show_is_added_only_under_free_ids() {
    let mut r = seeded();
    let before = r.revision();
    let episodes = list(&["x.mkv", "y.mkv"]);
    let mut add = |show: &str, ids: &[&str]| {
        r.create_show_if_free("nelson", "X", "D:\\X", &episodes, T0, show, &list(ids))
    };
    assert!(!add("s1", &["x", "y"]));
    assert!(!add("s3", &["x", "a"]));
    assert!(!add("s3", &["x", "x"]));
    assert!(add("s3", &["x", "y"]));
    assert_eq!(r.revision(), before + 3);
    let added = r.show("s3").unwrap();
    assert_eq!(added.episodes.len(), 2);
    assert_eq!(added.episodes[1].id, "y");
    assert_eq!(added.episodes[1].position, 1);
}

#[test]
fn a_rescan_draws_ids_for_new_episodes_only() {
    let mut r = seeded();
    let scan = list(&["a.mkv", "b.mkv", "z.mkv"]);
    assert_eq!(r.rescan_episodes_if_free("s1", &scan, T0, &list(&["c"])), None);
    assert_eq!(r.show("s1").unwrap().episodes.len(), 2);
    assert_eq!(r.rescan_episodes_if_free("s1", &scan, T0, &list(&["z"])), Some(list(&["z"])));
    assert_eq!(r.show("s1").unwrap().episodes[2].position, 2);
    assert_eq!(r.rescan_episodes("s1", &scan), Some(Vec::new()));
    assert_eq!(r.rescan_episodes("s1", &[]), Some(Vec::new()));
}

#[test]
fn a_new_episode_never_jumps_the_queue() {
    let mut r = Replica::new();
    let sid = r.create_show("nelson", "X", "D:\\X", &list(&["b.mkv"])).unwrap();
    let scan = list(&["a.mkv", "b.mkv"]);
    assert_eq!(r.rescan_episodes(&sid, &scan).unwrap().len(), 1);
    let places = |r: &Replica| -> Vec<(String, i64)> {
        r.show(&sid).unwrap().episodes.iter().map(|e| (e.relative_path.clone(), e.position)).collect()
    };
    assert_eq!(places(&r), [("b.mkv".to_string(), 0), ("a.mkv".to_string(), 1)]);
    assert_eq!(first_unwatched(&r.show(&sid).unwrap().episodes).unwrap().relative_path, "b.mkv");
}

#[test]
fn a_second_scan_moves_nothing() {
    let mut r = Replica::new();
    let sid = r.create_show("nelson", "X", "D:\\X", &list(&["b.mkv", "c.mkv"])).unwrap();
    let b = r.show(&sid).unwrap().episodes[0].id.clone();
    assert!(r.defer(&sid, &b));
    let scan = list(&["a.mkv", "b.mkv", "c.mkv"]);
    assert_eq!(r.rescan_episodes(&sid, &scan).unwrap().len(), 1);
    let (rows, revision) = (r.episodes.clone(), r.revision());
    assert_eq!(r.rescan_episodes(&sid, &scan).unwrap().len(), 0);
    assert_eq!(r.revision(), revision);
    for (before, after) in rows.iter().zip(r.episodes.iter()) {
        assert_eq!((&before.id, before.position), (&after.id, after.position));
    }
    // The deferred episode stays behind the one it was deferred past.
    let order: Vec<String> =
        r.show(&sid).unwrap().episodes.iter().map(|e| e.relative_path.clone()).collect();
    assert_eq!(order, ["c.mkv", "b.mkv", "a.mkv"]);
}

#[test]
fn named_episodes_are_marked_watched_now() {
    let mut r = seeded();
    r.mark_episodes_watched("s1", &list(&["b", "nope"]));
    let s1 = r.show("s1").unwrap();
    assert!(s1.episodes[0].watched_at.is_none());
    assert!(s1.episodes[1].watched_at.is_some());
    assert_eq!(r.show_history("s1").len(), 1);
}
