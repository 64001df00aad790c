//! The runner's controls and its loop, with the player and the origin played by a
//! test.

use std::collections::BTreeSet;

use shows::filesync::FileSyncReport;
use shows::replica::Replica;
use shows::rounds::{compute_and_save_new_round, fetch_round, load_round_from_db, round_id};
use shows::runloop::{
    files_checked, load_round, reconciled, round_ended, run, seeded, LoopState, RunAction, RunStep,
};
use shows::runner::{Effect, PlayerShutdown, RoundEndTracker, Runner, SyncRequests, SyncWork};
use shows::sync::SyncProgressState;
use shows::tables::{EpisodeRow, ShowRow};

const T0: &str = "2026-01-01T00:00:00Z";

struct TestShow {
    id: String,
    playlist: String,
    episodes: Vec<String>,
}

fn show(sid: &str, playlist: &str, eps: &[&str]) -> TestShow {
    TestShow {
        id: sid.to_string(),
        playlist: playlist.to_string(),
        episodes: eps.iter().map(|e| e.to_string()).collect(),
    }
}

fn add(r: &mut Replica, s: &TestShow) {
    r.shows.push(ShowRow {
        id: s.id.clone(),
        playlist: s.playlist.clone(),
        name: s.id.clone(),
        root_path: format!("D:\\{}", s.id),
        date_added: None,
        removed_at: None,
        updated_at: T0.to_string(),
    });
    for (i, e) in s.episodes.iter().enumerate() {
        r.episodes.push(EpisodeRow {
            id: e.clone(),
            show_id: s.id.clone(),
            relative_path: format!("{e}.mkv"),
            position: i as i64,
            watched_at: None,
            resume_pos: None,
            updated_at: T0.to_string(),
        });
    }
}

fn replica(shows: &[TestShow]) -> Replica {
    let mut r = Replica::new();
    for s in shows {
        add(&mut r, s);
    }
    r
}

fn runner(playlists: &[&str]) -> Runner {
    Runner::new(names(playlists))
}

fn names(playlists: &[&str]) -> Vec<String> {
    playlists.iter().map(|s| s.to_string()).collect()
}

fn watched(r: &Replica, episode_id: &str) -> Option<String> {
    r.episodes.iter().find(|e| e.id == episode_id).and_then(|e| e.watched_at.clone())
}

fn set_round(run: &mut Runner, r: &Replica) {
    run.round = Some(fetch_round(r, &run.playlists));
}

fn play_sim(run: &mut Runner, r: &mut Replica, i: usize) {
    run.set_pos(i);
    run.on_file_loaded(r);
    run.on_natural_end(r);
}

fn count(effects: &[Effect], wanted: fn(&Effect) -> bool) -> usize {
    effects.iter().filter(|e| wanted(e)).count()
}

fn stages(effects: &[Effect]) -> Vec<(String, SyncProgressState)> {
    effects
        .iter()
        .filter_map(|e| match e {
            Effect::Progress(p) => Some((p.stage.clone(), p.state)),
            _ => None,
        })
        .collect()
}

/// Takes the steps of the loop from one on, until it parks or stops. `on_sync`
/// stands for a sync that is waited for, `on_wait` for the wait for the end of a
/// round, and says whether the loop was stopped.
fn drive<S, W>(run: &mut Runner, r: &mut Replica, first: RunStep, mut on_sync: S, mut on_wait: W) -> (Vec<Effect>, RunAction)
where
    S: FnMut(&mut Replica),
    W: FnMut(&mut Runner, &mut Replica) -> (Result<(), PlayerShutdown>, bool),
{
    let mut effects = Vec::new();
    let mut step = first;
    loop {
        effects.append(&mut step.effects);
        let state = step.state;
        step = match step.action {
            RunAction::Seed => {
                on_sync(r);
                seeded(state)
            }
            RunAction::LoadRound => load_round(run, r, state),
            RunAction::Reconcile => {
                on_sync(r);
                reconciled(run, r, state)
            }
            RunAction::CheckFiles => files_checked(run, state, FileSyncReport::default(), 0, !r.queue.is_empty()),
            RunAction::WaitForRoundEnd => {
                let (waited, stopped) = on_wait(run, r);
                round_ended(run, state, waited, stopped)
            }
            RunAction::Park | RunAction::Stop => return (effects, step.action),
        };
    }
}

fn run_loop<W>(run: &mut Runner, r: &mut Replica, on_wait: W) -> (Vec<Effect>, RunAction)
where
    W: FnMut(&mut Runner, &mut Replica) -> (Result<(), PlayerShutdown>, bool),
{
    let first = RunStep {
        state: LoopState { first_round: true, background_sync: false, start: 0 },
        effects: Vec::new(),
        action: RunAction::LoadRound,
    };
    drive(run, r, first, |_| {}, on_wait)
}

// ── starting ─────────────────────────────────────────────────────────────

#[test]
fn established_startup_reports_local_progress_before_background_sync() {
    let mut r = replica(&[show("s1", "nelson", &["a"])]);
    let mut rn = runner(&["nelson"]);
    let (effects, action) = drive(&mut rn, &mut r, run(true), |_| panic!("no sync is waited for"), |_, _| (Ok(()), true));
    assert_eq!(
        stages(&effects),
        vec![
            ("startup.plan".to_string(), SyncProgressState::Started),
            ("startup.plan".to_string(), SyncProgressState::Succeeded),
            ("local-round.load".to_string(), SyncProgressState::Started),
            ("file-cache.check".to_string(), SyncProgressState::Started),
            ("file-cache.check".to_string(), SyncProgressState::Succeeded),
            ("local-round.load".to_string(), SyncProgressState::Succeeded),
        ]
    );
    assert_eq!(count(&effects, |e| matches!(e, Effect::RequestFullSync)), 1);
    assert!(action == RunAction::Stop);
}

#[test]
fn established_drained_replica_retries_after_sync_adds_selected_playlist() {
    let mut r = replica(&[show("other", "other", &["old"])]);
    let mut rn = runner(&["nelson"]);
    let mut syncs = 0;
    let mut rounds = Vec::new();
    let (effects, _) = drive(
        &mut rn,
        &mut r,
        run(true),
        |library| {
            syncs += 1;
            add(library, &show("s1", "nelson", &["a"]));
        },
        |rn, _| {
            rounds.push(rn.round.as_ref().unwrap().len());
            (Ok(()), true)
        },
    );
    assert_eq!(syncs, 1);
    assert_eq!(rounds, [1]);
    assert_eq!(count(&effects, |e| matches!(e, Effect::Drained)), 0);
}

#[test]
fn first_install_defers_new_queue_push_until_local_terminal() {
    let mut r = replica(&[]);
    let mut rn = runner(&["nelson"]);
    let mut syncs = 0;
    let (effects, _) = drive(
        &mut rn,
        &mut r,
        run(false),
        |library| {
            syncs += 1;
            add(library, &show("s1", "nelson", &["a"]));
        },
        |_, _| (Ok(()), true),
    );
    assert_eq!(syncs, 1);
    let terminal = effects
        .iter()
        .position(|e| matches!(e, Effect::Progress(p) if p.stage == "local-round.load" && p.state == SyncProgressState::Succeeded))
        .unwrap();
    // the queue push must not start before local-round.load is terminal
    assert_eq!(count(&effects[..terminal], |e| matches!(e, Effect::RequestPush)), 0);
    assert_eq!(count(&effects[terminal..], |e| matches!(e, Effect::RequestPush)), 1);
}

#[test]
fn empty_replica_waits_for_seed_before_loading_first_round() {
    let first = run(false);
    assert!(first.action == RunAction::Seed);
    assert_eq!(count(&first.effects, |e| matches!(e, Effect::Round(_))), 0);

    let mut r = replica(&[]);
    let mut rn = runner(&["nelson"]);
    let mut syncs = 0;
    let (effects, _) = drive(
        &mut rn,
        &mut r,
        first,
        |library| {
            syncs += 1;
            add(library, &show("s1", "nelson", &["a"]));
        },
        |_, _| (Ok(()), true),
    );
    assert_eq!(count(&effects, |e| matches!(e, Effect::Round(0))), 1);
    assert_eq!(syncs, 1);
}

// ── controls ─────────────────────────────────────────────────────────────

#[test]
fn skip_advances_current_locally() {
    let mut r = replica(&[show("s1", "nelson", &["a", "b"])]);
    let mut rn = runner(&["nelson"]);
    set_round(&mut rn, &r);
    rn.set_pos(0);
    let cur = rn.current().unwrap();
    let (outcome, effects) = rn.skip(&mut r);
    assert!(outcome.ok());
    assert_eq!(outcome.status(), "skipped");
    assert_eq!(count(&effects, |e| matches!(e, Effect::Skip)), 1);
    assert!(watched(&r, &cur.episode_id).is_some());
}

#[test]
fn defer_bumps_without_watching() {
    let mut r = replica(&[show("s1", "nelson", &["a", "b"])]);
    let mut rn = runner(&["nelson"]);
    set_round(&mut rn, &r);
    rn.set_pos(0);
    let cur = rn.current().unwrap();
    assert!(rn.has_room_behind(&r));
    let (outcome, effects) = rn.defer(&mut r);
    assert!(outcome.ok());
    assert_eq!(outcome.status(), "deferred");
    let ep = r
        .show("s1")
        .unwrap()
        .episodes
        .into_iter()
        .find(|e| e.id == cur.episode_id)
        .unwrap();
    assert!(ep.watched_at.is_none() && ep.position == 2);
    assert!(rn.deferred.contains(&cur.episode_id));
    assert_eq!(count(&effects, |e| matches!(e, Effect::Skip)), 1);
}

#[test]
fn previous_steps_back_without_watching() {
    let r = replica(&[show("s1", "nelson", &["a", "b"])]);
    let mut rn = runner(&["nelson"]);
    set_round(&mut rn, &r);
    rn.set_pos(0);
    let cur = rn.current().unwrap();
    let (outcome, effects) = rn.previous();
    assert!(outcome.ok());
    assert_eq!(outcome.status(), "previous");
    assert_eq!(count(&effects, |e| matches!(e, Effect::Previous)), 1);
    // navigation only — stepping back marks nothing watched
    assert!(watched(&r, &cur.episode_id).is_none());
}

#[test]
fn round_entry_contains_nas_and_relative_paths() {
    let r = replica(&[show("s1", "nelson", &["ep-a"])]);
    let round = fetch_round(&r, &names(&["nelson"]));

    assert_eq!(round.len(), 1);
    let entry = &round[0];
    assert_eq!(entry.show_name, "s1");
    assert_eq!(entry.relative_path, "ep-a.mkv");
    assert_eq!(entry.nas_absolute_path, r"D:\s1\ep-a.mkv");
    assert_eq!(entry.local_path, ["s1", "ep-a.mkv"]);
}

#[test]
fn no_round_is_safe() {
    let mut r = replica(&[show("s1", "nelson", &["a"])]);
    let mut rn = runner(&["nelson"]);
    rn.defer(&mut r); // no round in progress -> no-op
    let (_, effects) = rn.skip(&mut r); // skip still nudges the player
    assert_eq!(count(&effects, |e| matches!(e, Effect::Skip)), 1);
    assert!(r.show("s1").unwrap().episodes[0].watched_at.is_none());
}

#[test]
fn controls_report_noop_without_current_round() {
    let mut r = replica(&[show("s1", "nelson", &["a"])]);
    let mut rn = runner(&["nelson"]);

    assert_eq!(rn.defer(&mut r).0.status(), "no_current_episode");
    assert_eq!(rn.previous().0.status(), "no_current_episode");
    assert_eq!(rn.play_show(&mut r, "s1").0.status(), "show_not_in_round");
}

#[test]
fn reload_round_interrupts_player_so_loop_can_rebuild_from_queue() {
    let rn = runner(&["nelson"]);

    let (outcome, effects) = rn.reload_round();

    assert!(outcome.ok());
    assert_eq!(outcome.status(), "round_reload_requested");
    assert_eq!(count(&effects, |e| matches!(e, Effect::ClearPlaylist)), 1);
}

// ── the loop ─────────────────────────────────────────────────────────────

#[test]
fn each_finished_episode_is_marked_watched() {
    let mut r = replica(&[show("s1", "nelson", &["a"]), show("s2", "nelson", &["b"])]);
    let mut rn = runner(&["nelson"]);
    run_loop(&mut rn, &mut r, |rn, r| {
        let n = rn.round.as_ref().map(Vec::len).unwrap_or(0);
        for i in 0..n {
            play_sim(rn, r, i);
        }
        (Ok(()), true)
    });
    assert!(watched(&r, "a").is_some());
    assert!(watched(&r, "b").is_some());
}

#[test]
fn unfinished_episode_is_not_watched() {
    // Watch the Simpsons to the end, turn off before Malcolm plays: Simpsons
    // is done; Malcolm wasn't watched, so it stays the next pick.
    let mut r = replica(&[show("s1", "nelson", &["simpsons"]), show("s2", "nelson", &["malcolm"])]);
    let mut rn = runner(&["nelson"]);
    run_loop(&mut rn, &mut r, |rn, r| {
        let round = rn.round.clone().unwrap_or_default();
        for (i, e) in round.iter().enumerate() {
            if e.show_id == "s1" {
                play_sim(rn, r, i);
            }
        }
        (Ok(()), true)
    });
    assert!(watched(&r, "simpsons").is_some());
    assert!(watched(&r, "malcolm").is_none());
}

#[test]
fn failed_load_is_not_watched() {
    let mut r = replica(&[show("s1", "nelson", &["a"]), show("s2", "nelson", &["b"])]);
    let mut rn = runner(&["nelson"]);
    run_loop(&mut rn, &mut r, |rn, r| {
        let round = rn.round.clone().unwrap_or_default();
        for (i, e) in round.iter().enumerate() {
            if e.show_id == "s1" {
                play_sim(rn, r, i); // s1 plays; s2's file "fails to load"
            }
        }
        (Ok(()), true)
    });
    assert!(watched(&r, "a").is_some());
    assert!(watched(&r, "b").is_none());
}

#[test]
fn deferred_episode_is_not_advanced_on_finish() {
    let mut r = replica(&[show("s1", "nelson", &["a", "b"])]);
    let mut rn = runner(&["nelson"]);
    set_round(&mut rn, &r);
    rn.set_pos(0);
    rn.on_file_loaded(&mut r);
    let cur = rn.current().unwrap();
    rn.defer(&mut r); // bumps + marks deferred + skips
    rn.on_natural_end(&mut r); // a stray end for the deferred entry -> no-op
    let ep = r
        .show("s1")
        .unwrap()
        .episodes
        .into_iter()
        .find(|e| e.id == cur.episode_id)
        .unwrap();
    assert!(ep.watched_at.is_none() && ep.position == 2);
}

#[test]
fn round_with_no_playable_media_parks() {
    let mut r = replica(&[show("s1", "nelson", &["a"]), show("s2", "nelson", &["b"])]);
    let mut rn = runner(&["nelson"]);
    let (effects, action) = run_loop(&mut rn, &mut r, |_, _| (Ok(()), false)); // nothing opens
    let errors: Vec<&str> = effects
        .iter()
        .filter_map(|e| match e {
            Effect::Failed(why) => Some(*why),
            _ => None,
        })
        .collect();
    assert!(errors.first().is_some_and(|e| e.contains("no playable media")));
    assert_eq!(count(&effects, |e| matches!(e, Effect::Advanced(_))), 0);
    assert!(watched(&r, "a").is_none() && watched(&r, "b").is_none());
    assert!(action == RunAction::Park);
}

#[test]
fn drained_calls_on_drained() {
    let mut r = Replica::new(); // empty library
    let mut rn = runner(&["nelson"]);
    let (effects, action) = run_loop(&mut rn, &mut r, |_, _| (Ok(()), true));
    assert_eq!(count(&effects, |e| matches!(e, Effect::Drained)), 1);
    assert!(action == RunAction::Park);
}

#[test]
fn an_interrupted_wait_loads_the_round_anew() {
    let mut r = replica(&[show("s1", "nelson", &["a"])]);
    let mut rn = runner(&["nelson"]);
    let mut waits = 0;
    let (_, action) = run_loop(&mut rn, &mut r, |_, _| {
        waits += 1;
        if waits < 3 {
            (Err(PlayerShutdown("interrupted".to_string())), false)
        } else {
            (Err(PlayerShutdown("mpv shutdown event".to_string())), false)
        }
    });
    assert_eq!(waits, 3);
    assert!(action == RunAction::Stop);
}

#[test]
fn a_stored_round_goes_on_where_it_was_left() {
    let mut r = replica(&[show("s1", "nelson", &["a"]), show("s2", "nelson", &["b"])]);
    let mut rn = runner(&["nelson"]);
    run_loop(&mut rn, &mut r, |rn, r| {
        play_sim(rn, r, 0);
        (Ok(()), true)
    });
    let (round, pos) = load_round_from_db(&r, &names(&["nelson"]));
    assert_eq!(round.len(), 2);
    assert_eq!(pos, 1);
}

#[test]
fn rounds_are_numbered_upwards() {
    let r = replica(&[show("s1", "nelson", &["a"]), show("s2", "nelson", &["b"])]);
    let mut round = fetch_round(&r, &names(&["nelson"]));
    round[0].position = 4;
    round[1].position = 7;
    assert_eq!(round_id(&round, None), 5);
    assert_eq!(round_id(&round, Some(3)), 5);
    assert_eq!(round_id(&round, Some(5)), 6);
}

#[test]
fn cross_playlist_round_spans_playlists() {
    let r = replica(&[show("s1", "nelson", &["a"]), show("s2", "couple", &["b"])]);
    let rnd = fetch_round(&r, &names(&["nelson", "couple"]));
    let ids: BTreeSet<&str> = rnd.iter().map(|e| e.show_id.as_str()).collect();
    assert_eq!(ids, ["s1", "s2"].into_iter().collect());
}

// ── resume ───────────────────────────────────────────────────────────────

#[test]
fn save_resume_persists_position() {
    let mut r = replica(&[show("s1", "nelson", &["a", "b"])]);
    let mut rn = runner(&["nelson"]);
    set_round(&mut rn, &r);
    rn.set_pos(0);
    let cur = rn.current().unwrap();
    rn.save_resume(&mut r, Some(100.0f64.to_bits()), false);
    assert_eq!(r.resume_pos(&cur.episode_id), Some(100.0f64.to_bits()));
}

#[test]
fn on_file_loaded_seeks_to_resume() {
    let mut r = replica(&[show("s1", "nelson", &["a", "b"])]);
    let mut rn = runner(&["nelson"]);
    set_round(&mut rn, &r);
    rn.set_pos(0);
    let cur = rn.current().unwrap();
    r.set_resume(&cur.episode_id, Some(200.0f64.to_bits()), false);
    let effects = rn.on_file_loaded(&mut r);
    assert!(effects
        .iter()
        .any(|e| matches!(e, Effect::SeekAbsolute(bits) if f64::from_bits(*bits) == 200.0)));
    assert_eq!(rn.playing.as_ref().unwrap().episode_id, cur.episode_id);
}

#[test]
fn track_controls_persist_for_current_episode() {
    let mut r = replica(&[show("s1", "nelson", &["a", "b"])]);
    let mut rn = runner(&["nelson"]);
    set_round(&mut rn, &r);
    rn.set_pos(0);
    let cur = rn.current().unwrap();

    let (sub, sub_effects) = rn.set_current_subtitle_track(&mut r, "no");
    assert_eq!(sub.status(), "subtitle_updated");
    let (audio, audio_effects) = rn.set_current_audio_track(&mut r, "2");
    assert_eq!(audio.status(), "audio_updated");
    assert!(sub_effects.iter().any(|e| matches!(e, Effect::SetSub(s) if s == "no")));
    assert!(audio_effects.iter().any(|e| matches!(e, Effect::SetAudio(s) if s == "2")));

    let prefs = r.playback_preferences(&cur.episode_id);
    assert_eq!(prefs.subtitle_track.as_deref(), Some("no"));
    assert_eq!(prefs.audio_track.as_deref(), Some("2"));
}

#[test]
fn on_file_loaded_applies_episode_track_preferences() {
    let mut r = replica(&[show("s1", "nelson", &["a", "b"])]);
    let mut rn = runner(&["nelson"]);
    set_round(&mut rn, &r);
    rn.set_pos(0);
    let cur = rn.current().unwrap();
    r.set_subtitle_track(&cur.episode_id, "3");
    r.set_audio_track(&cur.episode_id, "1");

    let effects = rn.on_file_loaded(&mut r);

    assert!(effects.iter().any(|e| matches!(e, Effect::SetSub(s) if s == "3")));
    assert!(effects.iter().any(|e| matches!(e, Effect::SetAudio(s) if s == "1")));
}

// ── the end of a round ───────────────────────────────────────────────────

#[test]
fn startup_idle_minus_one_is_not_a_round_end() {
    // The player tells its place once at the start; before anything plays that
    // place is -1. It must not count as a round ending.
    let mut t = RoundEndTracker::default();
    assert!(!t.observe(-1));
    assert_eq!(t.ended_count(), 0);
}

#[test]
fn playing_then_exhausted_ends_exactly_one_round() {
    let mut t = RoundEndTracker::default();
    assert!(!t.observe(0)); // first entry
    assert!(!t.observe(1)); // second entry
    assert!(t.observe(-1)); // playlist exhausted -> round end
    assert_eq!(t.ended_count(), 1);
}

#[test]
fn back_navigation_does_not_miscount_the_round() {
    // skip forward then step back revisits earlier positions; only the final
    // exhaustion ends the round.
    let mut t = RoundEndTracker::default();
    for pos in [0, 1, 2, 1, 0, 1, 2] {
        assert!(!t.observe(pos));
    }
    assert!(t.observe(-1));
    assert_eq!(t.ended_count(), 1);
}

#[test]
fn repeated_idle_minus_one_counts_only_once() {
    // After exhaustion the player may tell -1 again while idle; the extra -1 is
    // ignored.
    let mut t = RoundEndTracker::default();
    assert!(!t.observe(0));
    assert!(t.observe(-1));
    assert!(!t.observe(-1));
    assert!(!t.observe(-1));
    assert_eq!(t.ended_count(), 1);
}

#[test]
fn consecutive_rounds_each_end_once() {
    let mut t = RoundEndTracker::default();
    assert!(!t.observe(0));
    assert!(t.observe(-1));
    assert!(!t.observe(0)); // next round starts
    assert!(t.observe(-1));
    assert_eq!(t.ended_count(), 2);
}

#[test]
fn play_episode_navigates_within_existing_round() {
    let mut r = replica(&[show("s1", "nelson", &["a", "b"]), show("s2", "nelson", &["c"])]);
    let mut rn = runner(&["nelson"]);

    // Compute and save round
    let round = fetch_round(&r, &names(&["nelson"]));
    assert_eq!(round.len(), 2);

    let idx_c = round.iter().position(|e| e.episode_id == "c").unwrap();
    let idx_a = round.iter().position(|e| e.episode_id == "a").unwrap();

    let entries: Vec<(String, String, i32, String, String)> = round
        .iter()
        .enumerate()
        .map(|(i, e)| {
            (
                e.episode_id.clone(),
                e.show_id.clone(),
                i as i32,
                if i == idx_a { "playing".to_string() } else { "pending".to_string() },
                e.playlist.clone(),
            )
        })
        .collect();
    r.save_round_queue(&entries, "2026-05-31T00:00:00Z");

    // Start playing "a"
    rn.round = Some(round.clone());
    rn.pos = idx_a;

    // Manual play for s2's "c" (which is in the existing queue at idx_c)
    let s2 = r.show("s2").unwrap();

    let (outcome, effects) = rn.play_show(&mut r, &s2.id);
    assert!(outcome.ok());
    assert_eq!(outcome.status(), "playing_selected_show");

    // 1. the place is now idx_c
    assert_eq!(rn.pos, idx_c);
    // 2. the player is told to go there
    assert!(effects.iter().any(|e| matches!(e, Effect::SetPlaylistPos(i) if *i == idx_c)));
    // 3. the queue keeps its order
    let q = r.get_round_queue();
    assert_eq!(q.len(), 2);
    assert_eq!(q[0].episode_id, round[0].episode_id);
    assert_eq!(q[1].episode_id, round[1].episode_id);
    // 4. "a" was reset from "playing" to "pending"
    assert_eq!(q[idx_a].state, "pending");
}

#[test]
fn a_full_sync_covers_a_push() {
    let mut work = SyncRequests::new();
    assert!(work.request_sync_work(SyncWork::Push));
    assert!(!work.request_sync_work(SyncWork::Sync));
    assert!(matches!(work.take(), Some(SyncWork::Sync)));
    assert!(work.take().is_none());
}

#[test]
fn a_new_round_is_stored_as_it_was_picked() {
    let mut r = replica(&[show("s1", "nelson", &["a"]), show("s2", "nelson", &["b"])]);
    let picked = compute_and_save_new_round(&mut r, &names(&["nelson"]));
    let queue = r.get_round_queue();
    assert_eq!(picked.len(), 2);
    assert_eq!(queue.len(), 2);
    for (i, (entry, row)) in picked.iter().zip(queue.iter()).enumerate() {
        assert_eq!(entry.episode_id, row.episode_id);
        assert_eq!(row.play_order, i as i32);
        assert_eq!(row.state, "pending");
    }
}
