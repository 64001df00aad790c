//! The player's events and what is told of its playback.

use serde_json::Value;
use shows::player::{
    observed_properties, playback_state, track_count, tracks, video_dimensions, Figures, Playback, PlayerCall,
    PlayerEvent, Stillness, TrackProperties, END_OF_FILE,
};
use shows::text::{read_number, spell_signed};

fn property(name: &str, value: &str) -> PlayerEvent {
    PlayerEvent::Property { name: name.to_string(), value: Some(value.to_string()) }
}

fn track(kind: &str, id: &str, title: Option<&str>, lang: Option<&str>, selected: &str) -> TrackProperties {
    TrackProperties {
        kind: Some(kind.to_string()),
        id: Some(id.to_string()),
        title: title.map(String::from),
        lang: lang.map(String::from),
        selected: Some(selected.to_string()),
    }
}

#[test]
fn only_a_file_that_played_to_its_end_counts() {
    let mut p = Playback::new();
    assert_eq!(p.take(&PlayerEvent::EndFile { reason: Some(END_OF_FILE) }), [PlayerCall::NaturalEnd]);
    assert!(p.take(&PlayerEvent::EndFile { reason: Some(2) }).is_empty());
    assert!(p.take(&PlayerEvent::EndFile { reason: None }).is_empty());
    assert!(p.take(&PlayerEvent::Other).is_empty());
}

#[test]
fn a_loaded_file_changes_the_playback() {
    let mut p = Playback::new();
    assert_eq!(p.take(&PlayerEvent::FileLoaded), [PlayerCall::FileLoaded, PlayerCall::PlaybackChanged]);
    assert_eq!(p.take(&property("time-pos", "1.5")), [PlayerCall::PlaybackChanged]);
    assert!(p.take(&property("speed", "1")).is_empty());
    assert_eq!(observed_properties().len(), 8);
}

#[test]
fn the_end_of_the_playlist_wakes_once() {
    let mut p = Playback::new();
    assert!(p.take(&property("playlist-pos", "-1")).is_empty());
    assert_eq!(p.take(&property("playlist-pos", "2")), [PlayerCall::Position(2)]);
    assert_eq!(p.take(&property("playlist-pos", "0")), [PlayerCall::Position(0)]);
    assert!(p.take(&property("playlist-pos", "none")).is_empty());
    assert_eq!(p.take(&property("playlist-pos", "-1")), [PlayerCall::Wake]);
    assert!(p.take(&property("playlist-pos", "-1")).is_empty());
    assert_eq!(p.round.ended_count(), 1);
}

#[test]
fn a_wait_ends_with_the_round_or_for_a_reason() {
    let mut p = Playback::new();
    p.interrupt();
    let target = p.begin_wait();
    assert_eq!(target, 1);
    assert!(p.wait_for_round_end(target, false).is_none());
    let stopped = p.wait_for_round_end(target, true).unwrap().unwrap_err();
    assert_eq!(stopped.0, "runner stopped");
    p.interrupt();
    assert_eq!(p.wait_for_round_end(target, false).unwrap().unwrap_err().0, "interrupted");
    assert_eq!(p.take(&PlayerEvent::Shutdown), [PlayerCall::Wake, PlayerCall::Stop]);
    assert_eq!(p.wait_for_round_end(target, true).unwrap().unwrap_err().0, "mpv shutdown event");
    p.take(&property("playlist-pos", "0"));
    p.take(&property("playlist-pos", "-1"));
    assert!(p.wait_for_round_end(target, true).unwrap().is_ok());
}

#[test]
fn tracks_are_told_by_kind() {
    let all = [
        track("video", "1", None, None, "yes"),
        track("sub", "1", Some("Full"), Some("en"), "no"),
        track("sub", "x", None, Some("de"), "yes"),
        track("sub", "3", None, None, "no"),
    ];
    let subs = tracks("sub", &all);
    assert_eq!(subs.len(), 3);
    assert_eq!(subs[0]["id"], 1);
    assert_eq!(subs[0]["title"], "Full");
    assert_eq!(subs[0]["selected"], false);
    assert!(subs[1]["id"].is_null());
    assert_eq!(subs[1]["title"], "de");
    assert_eq!(subs[1]["selected"], true);
    assert_eq!(subs[2]["title"], "sub 3");
    assert!(subs[2]["lang"].is_null());
    assert!(tracks("audio", &all).is_empty());
    assert_eq!(track_count(Some("4")), 4);
    assert_eq!(track_count(Some("many")), 0);
    assert_eq!(track_count(None), 0);
}

#[test]
fn the_playback_is_told_whole() {
    let figures = Figures {
        time_pos: Value::from(12.5),
        duration: Value::from(100.0),
        percent_pos: Value::from(12.5),
        volume: Value::Null,
    };
    let still = Stillness {
        pause: Some("yes".to_string()),
        core_idle: Some("no".to_string()),
        paused_for_cache: None,
    };
    let told = playback_state(
        figures,
        &still,
        &[track("audio", "2", None, Some("en"), "yes")],
        &Some("no".to_string()),
        &None,
    );
    assert_eq!(told["time_pos"], 12.5);
    assert!(told["volume"].is_null());
    assert_eq!(told["paused"], true);
    assert_eq!(told["core_idle"], false);
    assert_eq!(told["paused_for_cache"], false);
    assert_eq!(told["audio_tracks"][0]["title"], "en");
    assert_eq!(told["sub_tracks"].as_array().unwrap().len(), 0);
    assert_eq!(told["sid"], "no");
    assert!(told["aid"].is_null());
}

#[test]
fn a_video_has_a_size_or_none() {
    assert_eq!(video_dimensions(Some(1920), Some(1080)), Some((1920, 1080)));
    assert_eq!(video_dimensions(Some(0), Some(1080)), None);
    assert_eq!(video_dimensions(None, Some(1080)), None);
}

#[test]
fn numbers_are_read_as_they_are_spelled() {
    for n in [0, 7, -1, 42, i64::MAX, i64::MIN] {
        assert_eq!(read_number(&spell_signed(n)), Some(n));
    }
    assert_eq!(read_number("+5"), Some(5));
    assert_eq!(read_number(""), None);
    assert_eq!(read_number("-"), None);
    assert_eq!(read_number(" 5"), None);
    assert_eq!(read_number("9223372036854775808"), None);
    assert_eq!(read_number("-9223372036854775808"), Some(i64::MIN));
    assert_eq!(read_number("-9223372036854775809"), None);
}
