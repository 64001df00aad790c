//! What followers are told, and how.

use serde_json::Value;
use shows::control::{control_outcome_json, sync_now};
use shows::runner::ControlOutcome;
use shows::status::{
    sse_frame, status_alerts, Status, StatusFileSync, StatusFileSyncProblem, StatusPatch, StatusPhase,
    StatusRemovedShow, StatusRoundEntry,
};
use shows::stream::{pause_before_next, StatusBroadcaster, KEEPALIVE};

fn value(text: &str) -> Value {
    serde_json::from_str(text).unwrap()
}

fn read_exact(hub: &mut StatusBroadcaster, id: u64, n: usize) -> Vec<u8> {
    let mut out = Vec::new();
    while out.len() < n {
        out.extend(hub.read(id, n - out.len()).expect("there is more to read"));
    }
    out
}

#[test]
fn sse_frame_names_status_event_with_json_payload() {
    let frame = sse_frame(7, "status", &value(r#"{"phase": "playing", "round_pos": 2}"#));

    assert!(frame.starts_with("id: 7\nevent: status\n"));
    assert!(frame.contains("data: {\"phase\":\"playing\",\"round_pos\":2}\n\n"));
}

#[test]
fn status_stream_starts_with_initial_snapshot() {
    let mut hub = StatusBroadcaster::default();
    let id = hub.subscribe("initial".to_string());

    assert_eq!(read_exact(&mut hub, id, 7), b"initial");
}

#[test]
fn status_stream_coalesces_pending_updates_to_latest() {
    let mut hub = StatusBroadcaster::default();
    let id = hub.subscribe("first".to_string());
    read_exact(&mut hub, id, 5);

    hub.broadcast("stale".to_string());
    hub.broadcast("latest".to_string());

    assert_eq!(read_exact(&mut hub, id, 6), b"latest");
}

#[test]
fn a_frame_that_was_begun_is_finished_before_the_next() {
    let mut hub = StatusBroadcaster::default();
    let id = hub.subscribe("first".to_string());
    assert_eq!(hub.read(id, 2).unwrap(), b"fi");
    hub.broadcast("next".to_string());
    assert_eq!(hub.read(id, 100).unwrap(), b"rst");
    assert_eq!(hub.read(id, 100).unwrap(), b"next");
    assert!(hub.read(id, 100).is_none());
}

#[test]
fn a_quiet_stream_is_kept_alive() {
    let mut hub = StatusBroadcaster::default();
    let id = hub.subscribe("x".to_string());
    read_exact(&mut hub, id, 1);
    hub.keep_alive(id);
    assert_eq!(hub.read(id, 100).unwrap(), KEEPALIVE.as_bytes());
}

#[test]
fn who_left_is_told_nothing_more() {
    let mut hub = StatusBroadcaster::default();
    let gone = hub.subscribe("a".to_string());
    let stays = hub.subscribe("b".to_string());
    hub.unsubscribe(gone);
    hub.broadcast("c".to_string());
    assert_eq!(hub.read(stays, 100).unwrap(), b"c");
    assert!(gone != stays);
}

#[test]
fn frames_keep_their_distance() {
    assert_eq!(pause_before_next(30, 100), 70);
    assert_eq!(pause_before_next(100, 100), 0);
    assert_eq!(pause_before_next(250, 100), 0);
}

#[test]
fn control_outcome_json_reports_noop_status() {
    let value = control_outcome_json(&ControlOutcome::noop(
        "show_not_in_round",
        "show s1 is not in the current round",
    ));

    assert_eq!(value["ok"], false);
    assert_eq!(value["status"], "show_not_in_round");
    assert_eq!(value["message"], "show s1 is not in the current round");
}

#[test]
fn initial_status_snapshot_has_frontend_contract_fields() {
    let status = Status::new(&["nelson".to_string()]);
    let value = status.status_json(None, "S:\\shows.db", 0);

    assert_eq!(value["phase"], "initializing");
    assert_eq!(value["message"], "starting up");
    assert_eq!(value["playlist"], "nelson");
    assert!(value["round"].is_array());
    assert_eq!(value["round_pos"], 0);
    assert!(value["round_id"].is_null());
    assert!(value["error_kind"].is_null());
    assert_eq!(value["round_blocked"], false);
    assert_eq!(value["window_maximized"], false);
    assert_eq!(value["window_fullscreen"], false);
    assert_eq!(value["window_on_top"], false);
    assert!(value["alerts"].is_array());
}

#[test]
fn a_snapshot_tells_of_the_database_and_the_playback() {
    let status = Status::new(&["nelson".to_string(), "couple".to_string()]);
    let told = status.status_json(Some(value(r#"{"paused":true}"#)), "S:\\shows.db", 42);
    assert_eq!(told["database"]["path"], "S:\\shows.db");
    assert_eq!(told["database"]["revision"], 42);
    assert_eq!(told["playback"]["paused"], true);
}

#[test]
fn non_error_phase_patch_clears_blocked_round_state() {
    let patch = StatusPatch::phase(StatusPhase::Fetching, "loading round");
    let value = patch.fields;

    assert_eq!(value["phase"], "fetching");
    assert!(value["error_kind"].is_null());
    assert_eq!(value["round_blocked"], false);
}

#[test]
fn status_alerts_include_sync_offline_guidance() {
    let status = value(
        r#"{"sync": {
            "online": false,
            "pending": 0,
            "last_error": "Failed to open shared DB for seed: unable to open database file: S:\\shows.db",
            "shared_db_path": "S:\\shows.db"
        }}"#,
    );

    let alerts = status_alerts(&status);
    assert_eq!(alerts[0]["level"], "danger");
    assert_eq!(alerts[0]["title"], "Sync offline");
    assert!(alerts[0]["detail"].as_str().unwrap().contains("Map the NAS share"));
}

#[test]
fn status_alerts_include_file_sync_problem_examples() {
    let status = value(
        r#"{"file_sync": {
            "incomplete": true,
            "summary": "37 copied, 1 missing",
            "problems": [{
                "show_name": "Example",
                "source_path": "S:\\missing.mkv",
                "local_path": "D:\\Downloads\\Watching\\Example\\missing.mkv",
                "reason": "source file missing"
            }]
        }}"#,
    );

    let alerts = status_alerts(&status);
    assert_eq!(alerts[0]["level"], "warning");
    assert!(alerts[0]["detail"].as_str().unwrap().contains("Example"));
}

#[test]
fn status_alerts_promote_unplayable_round_file_sync() {
    let status = value(
        r#"{
            "error_kind": "round_unplayable",
            "message": "no playable media - check that the show files are reachable",
            "file_sync": {
                "incomplete": true,
                "summary": "1 missing",
                "problems": [{
                    "show_name": "Example",
                    "source_path": "S:\\missing.mkv",
                    "local_path": "D:\\Downloads\\Watching\\Example\\missing.mkv",
                    "reason": "source file missing"
                }]
            }
        }"#,
    );

    let alerts = status_alerts(&status);
    assert_eq!(alerts[0]["level"], "danger");
    assert_eq!(alerts[0]["title"], "Round has no playable media");
    assert!(alerts[0]["detail"].as_str().unwrap().contains("S:\\missing.mkv"));
    assert_eq!(alerts.as_array().unwrap().len(), 1);
}

#[test]
fn nothing_wrong_raises_no_alert() {
    assert_eq!(status_alerts(&value(r#"{"phase":"playing"}"#)), value("[]"));
}

#[test]
fn status_patch_playing_has_required_round_fields() {
    let patch = StatusPatch::playing(
        vec![StatusRoundEntry {
            show_id: "s1".to_string(),
            show_name: "Show".to_string(),
            episode_id: "e1".to_string(),
            playlist: "nelson".to_string(),
            order_value: 7,
            absolute_path: "D:\\Watching\\Show\\e1.mkv".to_string(),
        }],
        0,
        3,
    );
    let value = patch.fields;

    assert_eq!(value["phase"], "playing");
    assert_eq!(value["message"], "round of 1");
    assert_eq!(value["round_pos"], 0);
    assert_eq!(value["round_id"], 3);
    assert_eq!(value["round"][0]["show_id"], "s1");
    assert_eq!(value["round_blocked"], false);
    assert!(value["error_kind"].is_null());
}

#[test]
fn status_patch_round_unplayable_marks_blocked_round() {
    let patch = StatusPatch::round_unplayable("no playable media");
    let value = patch.fields;

    assert_eq!(value["phase"], "error");
    assert_eq!(value["message"], "no playable media");
    assert_eq!(value["error_kind"], "round_unplayable");
    assert_eq!(value["round_blocked"], true);
    assert!(value["round_id"].is_null());
}

#[test]
fn status_patch_drained_clears_round_identity() {
    let patch = StatusPatch::drained();
    let value = patch.fields;

    assert_eq!(value["phase"], "drained");
    assert_eq!(value["round"].as_array().unwrap().len(), 0);
    assert!(value["round_id"].is_null());
}

#[test]
fn a_patch_changes_only_its_own_fields() {
    let mut status = Status::new(&["nelson".to_string()]);
    status.push_status(StatusPatch::round_pos(4));
    status.push_status(StatusPatch::window_state(true, false, true));
    assert_eq!(status.fields["round_pos"], 4);
    assert_eq!(status.fields["window_maximized"], true);
    assert_eq!(status.fields["window_on_top"], true);
    assert_eq!(status.fields["phase"], "initializing");
    assert!(!status.push_raw(value("[1]")));
    assert!(status.push_raw(value(r#"{"extra":1}"#)));
    assert_eq!(status.fields["extra"], 1);
}

#[test]
fn frames_are_numbered() {
    let mut status = Status::new(&["nelson".to_string()]);
    let snapshot = value("{}");
    let first = status.status_frame(&snapshot);
    let second = status.status_frame(&snapshot);
    assert!(first.starts_with("id: "));
    assert!(first != second);
}

#[test]
fn farewells_and_file_reports_are_told() {
    let gone = StatusRemovedShow {
        id: "s1".to_string(),
        name: "Show".to_string(),
        date_added: "a".to_string(),
        last_played_at: "b".to_string(),
    };
    let told = StatusPatch::advance(vec![gone], 1).fields;
    assert_eq!(told["last_advance"]["advanced_count"], 1);
    assert_eq!(told["last_advance"]["removed_shows"][0]["name"], "Show");

    let report = StatusFileSync {
        copied: 1,
        cached: 2,
        missing: 3,
        failed: 0,
        summary: "s".to_string(),
        incomplete: true,
        problems: vec![StatusFileSyncProblem {
            episode_id: "e".to_string(),
            show_name: "Show".to_string(),
            source_path: "S:\\x".to_string(),
            local_path: "D:\\x".to_string(),
            reason: "gone".to_string(),
        }],
    };
    let told = StatusPatch::file_sync(report).fields;
    assert_eq!(told["file_sync"]["missing"], 3);
    assert_eq!(told["file_sync"]["problems"][0]["reason"], "gone");
}

#[test]
fn phases_are_spelled() {
    assert_eq!(StatusPhase::Syncing.as_str(), "syncing");
    assert_eq!(StatusPhase::Error.as_str(), "error");
}

#[test]
fn a_sync_that_did_not_run_is_told_so() {
    let refused = sync_now(None);
    assert!(refused.code >= 400);
    assert_eq!(sync_now(Some(true)).code, 200);
}

#[test]
fn a_follower_can_be_taken_on() {
    let mut hub = StatusBroadcaster::default();
    assert!(hub.has_room());
    hub.subscribe("first".to_string());
    assert!(hub.has_room());
}
