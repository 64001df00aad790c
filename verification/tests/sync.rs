//! The steps of a sync with the shared database, played by a test.

use shows::model::{LibraryEpisode, LibraryQueue, LibraryShow, RoundQueueEntry};
use shows::sync::{
    entry_count, episode_count, shared_database, PendingBreakdown, Purpose, SyncAction, SyncEvent,
    SyncProgress, SyncProgressState, Syncer,
};

const NONE: PendingBreakdown = PendingBreakdown { shows: 0, episodes: 0, history: 0, queue: 0 };

struct Origin {
    opens: bool,
    shows: i64,
    pushes: bool,
    pending: PendingBreakdown,
    has_library: bool,
}

/// Runs a sync to its end; gives back how it ended, what was reported and the
/// actions that were taken.
fn run(s: &mut Syncer, purpose: Purpose, origin: &Origin) -> (bool, Vec<SyncProgress>, Vec<SyncAction>) {
    let mut reports = Vec::new();
    let mut actions = Vec::new();
    let mut pending = origin.pending;
    let mut event = SyncEvent::Begin;
    let mut state = Syncer::run(purpose);
    let mut now = 1000;
    loop {
        let mut step = s.step(state, event, pending, now);
        reports.append(&mut step.reports);
        actions.push(step.action);
        state = step.run;
        now += 5;
        event = match step.action {
            SyncAction::Open => SyncEvent::Opened(if origin.opens {
                Ok(origin.has_library)
            } else {
                Err("unable to open database file".to_string())
            }),
            SyncAction::CountShows => SyncEvent::Counted(Ok(origin.shows)),
            SyncAction::MarkAllDirty => {
                pending = PendingBreakdown { shows: 1, episodes: 1, history: 0, queue: 0 };
                SyncEvent::MarkedDirty(Ok(()))
            }
            SyncAction::Push => {
                if origin.pushes {
                    pending = NONE;
                    SyncEvent::Pushed(Ok(()))
                } else {
                    SyncEvent::Pushed(Err("disk I/O error".to_string()))
                }
            }
            SyncAction::LoadShows => SyncEvent::ShowsLoaded(Ok((1, 1))),
            SyncAction::LoadQueues => SyncEvent::QueuesLoaded(Ok(0)),
            SyncAction::Merge => SyncEvent::Merged,
            SyncAction::Finish(ok) => return (ok, reports, actions),
        };
    }
}

fn stages(reports: &[SyncProgress]) -> Vec<(String, SyncProgressState)> {
    reports.iter().map(|p| (p.stage.clone(), p.state)).collect()
}

fn syncer() -> Syncer {
    Syncer::new(Some("S:\\shows.db".to_string()), vec!["nelson".to_string()])
}

#[test]
fn seed_failure_records_last_error_and_source_path() {
    let mut s = syncer();
    let origin = Origin { opens: false, shows: 0, pushes: true, pending: NONE, has_library: false };

    assert!(!run(&mut s, Purpose::Seed, &origin).0);
    assert!(!s.online());
    assert_eq!(s.shared_db_path(), Some("S:\\shows.db".to_string()));
    assert!(s.last_error().is_some_and(|e| e.contains("Failed to open shared DB for seed")));
}

#[test]
fn push_without_dirty_still_refreshes_connectivity() {
    let mut s = syncer();
    let mut origin = Origin { opens: false, shows: 0, pushes: true, pending: NONE, has_library: false };

    assert!(!run(&mut s, Purpose::Push, &origin).0);
    assert!(s.last_error().is_some());

    origin.opens = true;
    assert!(run(&mut s, Purpose::Push, &origin).0);
    assert!(s.online());
    assert!(s.last_error().is_none());
}

#[test]
fn full_sync_reuses_one_connection_and_emits_ordered_progress() {
    let mut s = syncer();
    let origin = Origin { opens: true, shows: 1, pushes: true, pending: NONE, has_library: false };
    let (ok, reports, actions) = run(&mut s, Purpose::Sync, &origin);
    assert!(ok);
    assert_eq!(
        stages(&reports),
        vec![
            ("origin.connect".to_string(), SyncProgressState::Started),
            ("origin.connect".to_string(), SyncProgressState::Succeeded),
            ("origin.push".to_string(), SyncProgressState::Started),
            ("origin.push".to_string(), SyncProgressState::Skipped),
            ("origin.pull".to_string(), SyncProgressState::Started),
            ("origin.pull".to_string(), SyncProgressState::Succeeded),
            ("replica.merge".to_string(), SyncProgressState::Started),
            ("replica.merge".to_string(), SyncProgressState::Succeeded),
            ("origin.complete".to_string(), SyncProgressState::Succeeded),
        ]
    );
    // a full push/pull sync must open the shared database exactly once
    assert_eq!(actions.iter().filter(|a| matches!(a, SyncAction::Open)).count(), 1);
    assert_eq!(actions.iter().filter(|a| matches!(a, SyncAction::Merge)).count(), 1);
}

#[test]
fn failed_connection_reports_skipped_remote_work_before_completion() {
    let mut s = syncer();
    let origin = Origin { opens: false, shows: 0, pushes: true, pending: NONE, has_library: false };
    let (ok, reports, _) = run(&mut s, Purpose::Sync, &origin);
    assert!(!ok);
    assert_eq!(
        stages(&reports),
        vec![
            ("origin.connect".to_string(), SyncProgressState::Started),
            ("origin.connect".to_string(), SyncProgressState::Failed),
            ("origin.push".to_string(), SyncProgressState::Skipped),
            ("origin.pull".to_string(), SyncProgressState::Skipped),
            ("origin.complete".to_string(), SyncProgressState::Failed),
        ]
    );
}

#[test]
fn an_empty_origin_is_seeded_from_here() {
    let mut s = syncer();
    let origin = Origin { opens: true, shows: 0, pushes: true, pending: NONE, has_library: true };
    let (ok, _, actions) = run(&mut s, Purpose::Push, &origin);
    assert!(ok);
    assert!(actions.iter().any(|a| matches!(a, SyncAction::MarkAllDirty)));
    assert!(actions.iter().any(|a| matches!(a, SyncAction::Push)));
}

#[test]
fn a_push_that_fails_tells_what_stays_queued() {
    let mut s = syncer();
    let pending = PendingBreakdown { shows: 1, episodes: 2, history: 0, queue: 0 };
    let origin = Origin { opens: true, shows: 1, pushes: false, pending, has_library: true };
    let (ok, reports, _) = run(&mut s, Purpose::Push, &origin);
    assert!(!ok);
    assert!(!s.online());
    assert_eq!(
        s.last_error().unwrap(),
        "Push failed; 3 change(s) stay queued: disk I/O error"
    );
    assert!(reports.iter().any(|p| p.stage == "origin.push"
        && p.state == SyncProgressState::Failed
        && p.pending.is_some_and(|b| b.total() == 3)));
}

#[test]
fn counts_cover_every_show_and_round() {
    let episode = LibraryEpisode {
        id: "e".to_string(),
        relative_path: "e.mkv".to_string(),
        position: 0,
        watched_at: None,
        resume_pos: None,
        updated_at: "t".to_string(),
    };
    let show = LibraryShow {
        id: "s".to_string(),
        playlist: "nelson".to_string(),
        name: "S".to_string(),
        root_path: "D:\\S".to_string(),
        date_added: None,
        removed_at: None,
        updated_at: "t".to_string(),
        episodes: vec![episode.clone(), episode],
    };
    assert_eq!(episode_count(&vec![show.clone(), show]), 4);
    let entry = RoundQueueEntry {
        episode_id: "e".to_string(),
        show_id: "s".to_string(),
        play_order: 0,
        state: "pending".to_string(),
    };
    let queue = LibraryQueue { playlist: "nelson".to_string(), updated_at: "t".to_string(), entries: vec![entry] };
    assert_eq!(entry_count(&vec![queue]), 1);
}

#[test]
fn the_shared_database_has_a_place_of_its_own() {
    assert_eq!(shared_database(None), "S:\\shows.db");
    assert_eq!(shared_database(Some(String::new())), "S:\\shows.db");
    assert_eq!(shared_database(Some("D:\\x.db".to_string())), "D:\\x.db");
}

#[test]
fn a_push_leaves_nothing_or_loses_nothing() {
    let some = PendingBreakdown { shows: 1, episodes: 2, history: 0, queue: 1 };
    let mut s = syncer();
    let broken = Origin { opens: true, shows: 3, pushes: false, pending: some, has_library: true };
    let (ok, reports, _) = run(&mut s, Purpose::Push, &broken);
    assert!(!ok && !s.online() && s.last_error().is_some());
    assert_eq!(reports.last().unwrap().pending.unwrap().total(), 4);

    // Offline before, and nothing to push: online again.
    let idle = Origin { opens: true, shows: 3, pushes: true, pending: NONE, has_library: true };
    let (ok, _, actions) = run(&mut s, Purpose::Push, &idle);
    assert!(ok && s.online() && s.last_error().is_none());
    assert!(!actions.contains(&SyncAction::Push));

    let good = Origin { pushes: true, ..broken };
    let (ok, _, actions) = run(&mut s, Purpose::Push, &good);
    assert!(ok && s.online() && s.last_error().is_none());
    assert_eq!(actions, [SyncAction::Open, SyncAction::CountShows, SyncAction::Push, SyncAction::Finish(true)]);
}
