//! The control server: what requests ask for and how they are answered.

use serde_json::Value;
use shows::catalog::{
    has_hidden_attributes, is_dot_name, library_add, library_add_at, library_detect_new_episodes, library_detect_unadded,
    library_next_round, library_pick_folder, library_preview, library_rescan, library_rescan_at, library_show_details,
    list_drives, read_directories, unknown_of, Folder,
};
use shows::control::{Answer, ControlServer};
use shows::origin::{load_library_queues, load_library_shows, EPOCH};
use shows::replica::Replica;
use shows::rounds::fetch_round;
use shows::routes::{
    content_type, read_body, route_get, route_post, static_name, url_path, GetRoute, PostRequest, SeekBy,
    WindowAction,
};
use shows::runner::{Effect, Runner};
use shows::tables::{EpisodeRow, ShowRow};
use shows::web::{query_param, urlencoding_decode};

const T0: &str = "2026-01-01T00:00:00Z";

fn value(text: &str) -> Value {
    serde_json::from_str(text).unwrap()
}

fn list(items: &[&str]) -> Vec<String> {
    items.iter().map(|s| s.to_string()).collect()
}

fn library() -> Replica {
    let mut r = Replica::new();
    for (show, episodes) in [("s1", ["a", "b"]), ("s2", ["c", "d"])] {
        r.shows.push(ShowRow {
            id: show.to_string(),
            playlist: "nelson".to_string(),
            name: show.to_uppercase(),
            root_path: format!("D:\\{show}"),
            date_added: None,
            removed_at: None,
            updated_at: T0.to_string(),
        });
        for (i, e) in episodes.iter().enumerate() {
            r.episodes.push(EpisodeRow {
                id: e.to_string(),
                show_id: show.to_string(),
                relative_path: format!("{e}.mkv"),
                position: i as i64,
                watched_at: None,
                resume_pos: None,
                updated_at: T0.to_string(),
            });
        }
    }
    r
}

fn server(r: &Replica) -> ControlServer {
    let mut s = ControlServer::new(list(&["nelson"]));
    let mut rn = Runner::new(list(&["nelson"]));
    rn.round = Some(fetch_round(r, &rn.playlists));
    s.set_runner(rn);
    s
}

fn ask(s: &mut ControlServer, r: &mut Replica, url: &str, body: &str) -> Answer {
    let request = route_post(url, &value(body));
    assert!(s.can_handle(r, &request));
    s.handle_post(r, &request, T0, &list(&["1", "2", "3", "4", "5", "6", "7", "8"]))
}

// ── routes ───────────────────────────────────────────────────────────────

#[test]
fn reads_are_routed_by_their_path() {
    assert!(matches!(route_get("/"), GetRoute::Index));
    assert!(matches!(route_get("/status"), GetRoute::Status));
    assert!(matches!(route_get("/shows?x=1"), GetRoute::Shows));
    assert!(matches!(route_get("/assets/app.js"), GetRoute::Static(name) if name == "assets/app.js"));
    assert_eq!(url_path("/a/b?c=d?e"), "/a/b");
    assert_eq!(static_name("//x"), "x");
}

#[test]
fn changes_are_routed_by_path_and_body() {
    let none = value("{}");
    assert!(matches!(route_post("/skip", &none), PostRequest::Skip));
    assert!(matches!(route_post("/pause", &none), PostRequest::Pause(s) if s.is_empty()));
    assert!(matches!(route_post("/pause?state=true&state=false", &none), PostRequest::Pause(s) if s == [true, false]));
    assert!(matches!(route_post("/play-show", &none), PostRequest::MissingShowId));
    assert!(matches!(route_post("/round/remove-entry", &none), PostRequest::MissingEpisodeId));
    assert!(matches!(route_post("/window/close", &none), PostRequest::Window(WindowAction::Close)));
    assert!(matches!(route_post("/seek", &value(r#"{"seconds":-5.5}"#)), PostRequest::Seek(Some(SeekBy::Seconds))));
    assert!(matches!(route_post("/seek", &none), PostRequest::Seek(None)));
    assert!(matches!(route_post("/sub", &value(r#"{"sid":3}"#)), PostRequest::Sub(s) if s == "3"));
    assert!(matches!(route_post("/sub", &none), PostRequest::Sub(s) if s == "no"));
    assert!(matches!(route_post("/stay-on-top", &value(r#"{"on_top":true}"#)), PostRequest::StayOnTop(Some(true))));
    assert!(matches!(route_post("/nowhere", &none), PostRequest::NotFound));
    assert!(matches!(
        route_post("/library/add", &value(r#"{"name":" N ","root_path":"D:\\X"}"#)),
        PostRequest::Add { name, root_path, playlist } if name == "N" && root_path == "D:\\X" && playlist == "nelson"
    ));
    assert!(matches!(
        route_post("/library/rescan-watched", &value(r#"{"show_id":"s","episodes":["a",1]}"#)),
        PostRequest::Rescan { watched: true, episodes: Some(e), .. } if e == ["a"]
    ));
}

#[test]
fn a_body_that_is_no_json_is_null() {
    assert!(read_body(Some("{")).is_null() || read_body(Some("{")).is_object());
    assert_eq!(read_body(Some(r#"{"a":1}"#)), value(r#"{"a":1}"#));
    assert_eq!(content_type("js").contains("javascript"), true);
}

#[test]
fn queries_are_decoded() {
    assert_eq!(urlencoding_decode("a%20b+c"), "a b c");
    assert_eq!(query_param("/x?show_id=a%2Fb&y=2", "show_id"), Some("a/b".to_string()));
    assert_eq!(query_param("/x", "show_id"), None);
}

// ── answers ──────────────────────────────────────────────────────────────

#[test]
fn a_skip_is_answered_and_carried_out() {
    let mut r = library();
    let mut s = server(&r);
    let answer = ask(&mut s, &mut r, "/skip", "{}");
    assert_eq!(answer.reply.code, 200);
    assert_eq!(answer.reply.body["status"], "skipped");
    assert!(answer.effects.iter().any(|e| matches!(e, Effect::Skip)));
}

#[test]
fn controls_without_a_runner_are_not_available() {
    let mut r = library();
    let mut s = ControlServer::new(list(&["nelson"]));
    let answer = ask(&mut s, &mut r, "/skip", "{}");
    assert_eq!(answer.reply.code, 503);
    assert_eq!(answer.reply.body["status"], "runner_unavailable");
}

#[test]
fn a_control_that_does_nothing_is_a_conflict() {
    let mut r = library();
    let mut s = server(&r);
    s.runner.as_mut().unwrap().round = None;
    let answer = ask(&mut s, &mut r, "/play-show", r#"{"show_id":"s1"}"#);
    assert_eq!(answer.reply.code, 409);
    assert_eq!(answer.reply.body["status"], "show_not_in_round");
}

#[test]
fn a_show_that_is_not_there_is_not_found() {
    let mut r = library();
    let mut s = server(&r);
    let revision = r.revision();
    for path in ["/play-show", "/library/remove"] {
        let answer = ask(&mut s, &mut r, path, r#"{"show_id":"nope"}"#);
        assert_eq!(answer.reply.code, 404, "{path}");
        assert_eq!(answer.reply.body["status"], "show_not_found");
        assert!(!answer.changed);
    }
    assert_eq!(r.revision(), revision);
}

#[test]
fn missing_ids_are_refused() {
    let mut r = library();
    let mut s = server(&r);
    assert_eq!(ask(&mut s, &mut r, "/play-show", "{}").reply.body["status"], "missing_show_id");
    assert_eq!(ask(&mut s, &mut r, "/round/remove-entry", "{}").reply.body["status"], "missing_episode_id");
    assert_eq!(ask(&mut s, &mut r, "/nowhere", "{}").reply.code, 404);
}

#[test]
fn window_requests_are_acknowledged() {
    let mut r = library();
    let mut s = server(&r);
    assert_eq!(ask(&mut s, &mut r, "/stay-on-top", r#"{"on_top":true}"#).reply.body["status"], "stay_on_top_set");
    assert_eq!(ask(&mut s, &mut r, "/fullscreen", "{}").reply.body["status"], "fullscreen_toggled");
    assert_eq!(ask(&mut s, &mut r, "/pause?state=true", "{}").reply.body["message"], "pause state updated");
    assert_eq!(ask(&mut s, &mut r, "/pause", "{}").reply.body["message"], "pause toggled");
}

#[test]
fn a_watched_show_changes_the_library() {
    let mut r = library();
    let mut s = server(&r);
    let answer = ask(&mut s, &mut r, "/library/mark-watched", r#"{"show_id":"s1"}"#);
    assert_eq!(answer.reply.code, 200);
    assert!(answer.changed);
    assert!(r.show("s1").unwrap().episodes.iter().all(|e| e.watched_at.is_some()));
}

// ── the catalogue ────────────────────────────────────────────────────────

#[test]
fn a_show_is_added_with_what_was_found() {
    let mut r = Replica::new();
    let reply = library_add(&mut r, "N", "D:\\N", "nelson", &list(&["e1.mkv", "e2.mkv"])).unwrap();
    assert_eq!(reply.code, 200);
    assert_eq!(reply.body["episodes"], 2);
    assert!(r.show(reply.body["id"].as_str().unwrap()).is_some());
    assert_eq!(library_add(&mut r, "", "D:\\N", "nelson", &list(&["x"])).unwrap().code, 400);
    assert_eq!(
        library_add(&mut r, "N", "D:\\N", "nelson", &[]).unwrap().body["error"],
        "no video files found under root_path"
    );
}

#[test]
fn previews_list_what_was_found() {
    assert_eq!(library_preview("D:\\N", &list(&["a", "b"])).body["episodes"], value(r#"["a","b"]"#));
    assert_eq!(library_preview("", &[]).code, 400);
    assert_eq!(library_pick_folder(&Some("D:\\N".to_string())).body["path"], "D:\\N");
    assert!(library_pick_folder(&None).body["path"].is_null());
}

#[test]
fn the_next_round_is_previewed() {
    let r = library();
    let told = library_next_round(&r).body;
    let round = told["next_round"].as_array().unwrap();
    assert_eq!(round.len(), 2);
    let first = round.iter().find(|e| e["show_id"] == "s1").unwrap();
    assert_eq!(first["show_name"], "S1");
    assert_eq!(first["episode_id"], "a");
}

#[test]
fn folders_without_a_show_are_listed() {
    let folder = |path: &str, name: &str| Folder { path: path.to_string(), name: Some(name.to_string()) };
    let reply = library_detect_unadded(
        "S:\\Shows",
        &[folder("S:\\Shows\\B", "B"), folder("S:\\Shows\\A", "A"), folder("S:\\Shows\\Known", "Known")],
        &[folder("D:\\Elsewhere\\Known", "Known")],
    );
    assert_eq!(reply.body["unadded"], value(r#"["S:\\Shows\\A","S:\\Shows\\B"]"#));
    assert_eq!(library_detect_unadded("", &[], &[]).code, 400);
}

#[test]
fn new_episodes_are_found_and_added() {
    let mut r = library();
    assert_eq!(unknown_of(&r, "s1", &list(&["a.mkv", "new.mkv"])), ["new.mkv"]);
    let told = library_detect_new_episodes(&r, &[list(&["a.mkv", "new.mkv"]), list(&["c.mkv"])]).body;
    assert_eq!(told["shows"].as_array().unwrap().len(), 1);
    assert_eq!(told["shows"][0]["new_episodes"], value(r#"["new.mkv"]"#));

    let done = library_rescan(&mut r, "s1", &list(&["a.mkv", "b.mkv", "new.mkv"]), true).unwrap();
    assert_eq!(done.reply.body["added"], 1);
    let s1 = r.show("s1").unwrap();
    let new = s1.episodes.iter().find(|e| e.relative_path == "new.mkv").unwrap();
    assert_eq!(new.position, 2);
    assert!(new.watched_at.is_some());
}

#[test]
fn details_part_what_was_watched_from_what_comes() {
    let mut r = library();
    r.advance_at(&[("s1".to_string(), "a".to_string())], T0, &list(&["h"]));
    let told = library_show_details(&r, "s1", &[Value::Null, Value::Null]).body;
    assert_eq!(told["show"]["name"], "S1");
    assert_eq!(told["all_episodes"].as_array().unwrap().len(), 2);
    assert_eq!(told["previous_episodes"][0]["id"], "a");
    assert_eq!(told["history"].as_array().unwrap().len(), 1);
    assert_eq!(library_show_details(&r, "nope", &[]).code, 404);
}

#[test]
fn drives_and_folders_are_browsed() {
    assert_eq!(list_drives(&['C', 'S'])[1]["path"], "S:\\");
    let told = read_directories(&[
        ("b".to_string(), "C:\\b".to_string()),
        ("A".to_string(), "C:\\A".to_string()),
    ]);
    assert_eq!(told[0]["name"], "A");
    assert_eq!(told[1]["path"], "C:\\b");
    assert!(is_dot_name(".git"));
    assert!(!is_dot_name("git"));
    assert!(has_hidden_attributes(2));
    assert!(has_hidden_attributes(4));
    assert!(!has_hidden_attributes(16));
}

// ── the exchange with the origin ─────────────────────────────────────────

#[test]
fn the_library_is_read_for_the_exchange() {
    let mut r = library();
    let shows = load_library_shows(&r, &list(&["nelson"]));
    assert_eq!(shows.len(), 2);
    assert_eq!(shows[0].episodes[1].relative_path, "b.mkv");
    assert!(load_library_shows(&r, &list(&["couple"])).is_empty());
    assert!(load_library_queues(&r, &list(&["nelson"])).is_empty());
    r.save_round_queue(
        &[("a".to_string(), "s1".to_string(), 0, "pending".to_string(), "nelson".to_string())],
        T0,
    );
    let queues = load_library_queues(&r, &list(&["nelson"]));
    assert_eq!(queues.len(), 1);
    assert_eq!(queues[0].entries[0].episode_id, "a");
    assert_eq!(queues[0].updated_at, T0);
    assert!(EPOCH < T0);
}

#[test]
fn the_player_and_the_window_are_told_what_is_asked() {
    let mut r = library();
    let mut s = server(&r);
    let toggled = ask(&mut s, &mut r, "/pause", "{}");
    assert_eq!(toggled.reply.body["message"], "pause toggled");
    assert!(matches!(toggled.effects[..], [Effect::TogglePause]));
    let set = ask(&mut s, &mut r, "/pause?state=true&state=false", "{}");
    assert_eq!(set.reply.body["message"], "pause state updated");
    assert!(matches!(set.effects[..], [Effect::SetPause(true), Effect::SetPause(false)]));
    assert!(matches!(ask(&mut s, &mut r, "/fullscreen", "{}").effects[..], [Effect::ToggleFullscreen]));
    for _ in 0..2 {
        let pinned = ask(&mut s, &mut r, "/stay-on-top", r#"{"on_top":true}"#);
        assert!(matches!(pinned.effects[..], [Effect::SetOnTop(true)]));
    }
    assert!(ask(&mut s, &mut r, "/stay-on-top", "{}").effects.is_empty());
    assert!(matches!(
        ask(&mut s, &mut r, "/window/minimize", "{}").effects[..],
        [Effect::Window(WindowAction::Minimize)]
    ));
}

#[test]
fn an_add_is_answered_by_the_ids_that_were_drawn() {
    let mut r = library();
    let before = r.revision();
    let found = list(&["x.mkv", "y.mkv"]);
    let mut add = |name: &str, show: &str, ids: &[&str]| {
        library_add_at(&mut r, name, "D:\\N", "nelson", &found, T0, show, &list(ids))
    };
    assert!(add("N", "s1", &["x", "y"]).is_none());
    assert!(add("N", "s3", &["x", "a"]).is_none());
    assert!(add("N", "s3", &["x", "x"]).is_none());
    assert_eq!(add("", "s3", &["x", "y"]).unwrap().code, 400);
    let reply = add("N", "s3", &["x", "y"]).unwrap();
    assert_eq!(reply.code, 200);
    assert_eq!(reply.body, value(r#"{"id":"s3","episodes":2}"#));
    assert_eq!(r.revision(), before + 3);
}

#[test]
fn a_rescan_is_answered_by_the_ids_that_were_drawn() {
    let mut r = library();
    let found = list(&["0.mkv", "a.mkv", "b.mkv"]);
    let before = r.revision();
    assert!(library_rescan_at(&mut r, "s1", &found, true, T0, &list(&["c"]), T0, &list(&["h"])).is_none());
    assert_eq!(r.revision(), before);
    let done = library_rescan_at(&mut r, "s1", &found, true, T0, &list(&["n"]), "later", &list(&["h"])).unwrap();
    assert!(done.changed);
    assert_eq!(done.reply.body["added"], 1);
    let s1 = r.show("s1").unwrap();
    assert_eq!(s1.episodes[2].id, "n");
    assert_eq!(s1.episodes[2].watched_at.as_deref(), Some("later"));
    assert_eq!(r.show_history("s1").len(), 1);

    let again = library_rescan(&mut r, "s1", &found, false).unwrap();
    assert_eq!(again.reply.body["added"], 0);
    let missing = library_rescan(&mut r, "nope", &found, false).unwrap();
    assert!(!missing.changed);
    assert_eq!(missing.reply.body["added"], 0);
}

#[test]
fn a_rescan_without_a_position_changes_nothing() {
    let mut r = library();
    r.episodes[1].position = i64::MAX;
    let before = r.revision();
    assert!(library_rescan(&mut r, "s1", &list(&["0.mkv", "a.mkv"]), false).is_none());
    assert_eq!(r.revision(), before);
    assert_eq!(r.episodes[0].position, 0);
    assert_eq!(r.episodes.len(), 4);
}
