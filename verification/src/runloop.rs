//! The playback loop: load a round, bring its files, play it to its end, again.
//!
//! The loop runs off the library alone. Only where there is no library at all, or
//! no round in it, does it wait for the origin; otherwise the origin is asked in
//! the background once the first round is on. The caller performs the effects of
//! a step in order, then the action, and hands what came of it to the next step.

use vstd::prelude::*;

use crate::clock;
use crate::filesync;
use crate::filesync::FileSyncReport;
use crate::replica;
use crate::replica::Replica;
use crate::rounds;
use crate::rounds::RoundEntry;
use crate::runner;
use crate::runner::{Effect, EffectView, PlayerShutdown, Runner, RunnerView};
use crate::sync;
use crate::sync::{SyncProgress, SyncProgressState};
use crate::text;

verus! {

/// What the loop does next.
#[derive(Debug, Clone, Copy, PartialEq, Eq, Structural)]
pub enum RunAction {
    /// Sync with the origin and wait for it, then go on with [`seeded`].
    Seed,
    /// Load a round, unless the loop was stopped.
    LoadRound,
    /// Sync with the origin and wait for it, then load a round once more.
    Reconcile,
    /// Bring the files of the round.
    CheckFiles,
    /// Wait for the end of the round.
    WaitForRoundEnd,
    /// Wait until the loop is stopped.
    Park,
    /// Return.
    Stop,
}

/// What the loop remembers between its steps.
#[derive(Debug, Clone, Copy, PartialEq, Eq, Structural)]
pub struct LoopState {
    pub first_round: bool,
    pub background_sync: bool,
    pub start: usize,
}

/// A step of the loop.
#[derive(Debug, Clone)]
pub struct RunStep {
    pub state: LoopState,
    pub effects: Vec<Effect>,
    pub action: RunAction,
}

#[verifier::ext_equal]
pub struct RunStepView {
    pub state: LoopState,
    pub effects: Seq<EffectView>,
    pub action: RunAction,
}

impl DeepView for RunStep {
    type V = RunStepView;

    open spec fn deep_view(&self) -> RunStepView {
        RunStepView {
            state: self.state,
            effects: self.effects.deep_view(),
            action: self.action,
        }
    }
}

pub open spec fn told(
    stage: Seq<char>,
    state: SyncProgressState,
    message: Seq<char>,
) -> EffectView {
    EffectView::Progress(sync::report(stage, state, message))
}

// ── starting ────────────────────────────────────────────────────────────

/// How the loop starts. With no library there is nothing to play, so the origin
/// is waited for.
pub open spec fn startup(has_library: bool) -> RunStepView {
    let plan = seq![
        told("startup.plan"@, SyncProgressState::Started, "Planning local-first startup"@),
        told(
            "startup.plan"@,
            SyncProgressState::Succeeded,
            if has_library {
                "Local library is available; load it before shared-database sync"@
            } else {
                "Local library is empty; seed it from the shared database before loading a round"@
            },
        ),
    ];
    RunStepView {
        state: LoopState { first_round: true, background_sync: has_library, start: 0 },
        effects: if has_library {
            plan.push(EffectView::Status("fetching"@, "loading local round"@))
        } else {
            plan.push(EffectView::Status("syncing"@, "seeding empty local library"@))
        },
        action: if has_library {
            RunAction::LoadRound
        } else {
            RunAction::Seed
        },
    }
}

fn progress(stage: &str, state: SyncProgressState, message: &str) -> (r: Effect)
    ensures
        r.deep_view() == told(stage@, state, message@),
{
    Effect::Progress(SyncProgress::new(stage, state, message))
}

/// Starts the loop.
pub fn run(has_library: bool) -> (r: RunStep)
    ensures
        r.deep_view() == startup(has_library),
{
    let mut effects: Vec<Effect> = Vec::new();
    assert(effects.deep_view() =~= Seq::empty());
    runner::emit(
        &mut effects,
        progress("startup.plan", SyncProgressState::Started, "Planning local-first startup"),
    );
    let message = if has_library {
        "Local library is available; load it before shared-database sync"
    } else {
        "Local library is empty; seed it from the shared database before loading a round"
    };
    runner::emit(
        &mut effects,
        progress("startup.plan", SyncProgressState::Succeeded, message),
    );
    let action = if has_library {
        runner::emit(&mut effects, Effect::Status("fetching", "loading local round"));
        RunAction::LoadRound
    } else {
        runner::emit(&mut effects, Effect::Status("syncing", "seeding empty local library"));
        RunAction::Seed
    };
    let state = LoopState { first_round: true, background_sync: has_library, start: 0 };
    let r = RunStep { state, effects, action };
    assert(r.deep_view() =~= startup(has_library));
    r
}

/// The library was seeded, or could not be.
pub fn seeded(state: LoopState) -> (r: RunStep)
    ensures
        r.deep_view() == (RunStepView {
            state,
            effects: seq![EffectView::Status("fetching"@, "loading local round"@)],
            action: RunAction::LoadRound,
        }),
{
    let mut effects: Vec<Effect> = Vec::new();
    assert(effects.deep_view() =~= Seq::empty());
    runner::emit(&mut effects, Effect::Status("fetching", "loading local round"));
    assert(effects.deep_view() =~= seq![
        EffectView::Status("fetching"@, "loading local round"@),
    ]);
    RunStep { state, effects, action: RunAction::LoadRound }
}

// ── loading a round ─────────────────────────────────────────────────────

/// The round to play and where to begin: what is left of the stored one, or else
/// a new one from its start.
pub open spec fn next_to_play(v: replica::LibraryView, playlists: Seq<Seq<char>>) -> (
    Seq<rounds::RoundEntryView>,
    nat,
) {
    let stored = rounds::stored_round(v, playlists);
    if stored.0.len() > 0 {
        stored
    } else {
        (rounds::picked_round(v, playlists), 0)
    }
}

/// The library after that: a new round is stored.
pub open spec fn after_loading(
    v: replica::LibraryView,
    playlists: Seq<Seq<char>>,
    now: Seq<char>,
) -> replica::LibraryView {
    if rounds::stored_round(v, playlists).0.len() > 0 {
        v
    } else {
        rounds::round_renewed(v, playlists, now)
    }
}

/// What is said when a round is looked for.
pub open spec fn loading_effects(
    v: replica::LibraryView,
    playlists: Seq<Seq<char>>,
    first_round: bool,
) -> Seq<EffectView> {
    if first_round {
        seq![
            told(
                "local-round.load"@,
                SyncProgressState::Started,
                "Loading or selecting a round from the local replica"@,
            ),
        ]
    } else if rounds::stored_round(v, playlists).0.len() == 0 && rounds::picked_round(
        v,
        playlists,
    ).len() > 0 {
        seq![EffectView::RequestPush]
    } else {
        Seq::empty()
    }
}

/// What is said when it is known whether there is a round.
pub open spec fn loaded_effects(round: Seq<rounds::RoundEntryView>, first_round: bool) -> Seq<
    EffectView,
> {
    if round.len() == 0 {
        if first_round {
            seq![
                told(
                    "local-round.load"@,
                    SyncProgressState::Skipped,
                    "The local library has no playable round"@,
                ),
                EffectView::Drained,
            ]
        } else {
            seq![EffectView::Drained]
        }
    } else if first_round {
        seq![
            told(
                "file-cache.check"@,
                SyncProgressState::Started,
                "Checking "@ + text::decimal(round.len()) + " round file(s) in the local cache"@,
            ),
        ]
    } else {
        Seq::empty()
    }
}

/// The runner with a round put on.
pub open spec fn round_on(
    r: RunnerView,
    round: Seq<rounds::RoundEntryView>,
    pos: nat,
) -> RunnerView {
    RunnerView {
        round: Some(round),
        pos,
        deferred: Seq::empty(),
        playing: None,
        loaded_any: false,
        ..r
    }
}

/// Whether a round is looked for once more after syncing: there is none, it is
/// the first that is looked for, and the origin was not waited for yet.
pub open spec fn retries(v: replica::LibraryView, playlists: Seq<Seq<char>>, state: LoopState) -> bool {
    &&& next_to_play(v, playlists).0.len() == 0
    &&& state.first_round
    &&& state.background_sync
}

/// The step that puts a round on, or parks where there is none.
pub open spec fn settled(
    before: Seq<EffectView>,
    round: Seq<rounds::RoundEntryView>,
    pos: nat,
    state: LoopState,
) -> RunStepView {
    RunStepView {
        state: LoopState {
            start: if round.len() > 0 {
                pos as usize
            } else {
                state.start
            },
            ..state
        },
        effects: before + loaded_effects(round, state.first_round),
        action: if round.len() == 0 {
            RunAction::Park
        } else {
            RunAction::CheckFiles
        },
    }
}

/// What loading a round does.
pub open spec fn load_step(
    v: replica::LibraryView,
    playlists: Seq<Seq<char>>,
    state: LoopState,
) -> RunStepView {
    let before = loading_effects(v, playlists, state.first_round);
    if retries(v, playlists, state) {
        RunStepView { state, effects: before, action: RunAction::Reconcile }
    } else {
        let (round, pos) = next_to_play(v, playlists);
        settled(before, round, pos, state)
    }
}

/// What loading a round does once the origin was waited for.
pub open spec fn retry_step(
    v: replica::LibraryView,
    playlists: Seq<Seq<char>>,
    state: LoopState,
) -> RunStepView {
    let (round, pos) = next_to_play(v, playlists);
    settled(Seq::empty(), round, pos, LoopState { background_sync: false, ..state })
}

fn look_for_round(library: &mut Replica, playlists: &Vec<String>, now: &str) -> (r: (
    Vec<RoundEntry>,
    usize,
    bool,
))
    requires
        old(library).deep_view().well_formed(),
    ensures
        r.0.deep_view() == next_to_play(old(library).deep_view(), playlists.deep_view()).0,
        r.1 == next_to_play(old(library).deep_view(), playlists.deep_view()).1,
        r.2 == (rounds::stored_round(old(library).deep_view(), playlists.deep_view()).0.len() == 0),
        final(library).deep_view() == after_loading(
            old(library).deep_view(),
            playlists.deep_view(),
            now@,
        ),
        final(library).deep_view().well_formed(),
{
    let (round, pos) = rounds::load_round_from_db(library, playlists.as_slice());
    if round.len() > 0 {
        (round, pos, false)
    } else {
        let round = rounds::compute_and_save_new_round_at(library, playlists.as_slice(), now);
        (round, 0, true)
    }
}

fn put_on(
    r: &mut Runner,
    mut effects: Vec<Effect>,
    round: Vec<RoundEntry>,
    pos: usize,
    state: LoopState,
) -> (s: RunStep)
    ensures
        s.deep_view() == settled(effects.deep_view(), round.deep_view(), pos as nat, state),
        final(r).deep_view() == if round@.len() == 0 {
            old(r).deep_view()
        } else {
            round_on(old(r).deep_view(), round.deep_view(), pos as nat)
        },
{
    let ghost before = effects.deep_view();
    let ghost views = round.deep_view();
    if round.len() == 0 {
        if state.first_round {
            runner::emit(
                &mut effects,
                progress(
                    "local-round.load",
                    SyncProgressState::Skipped,
                    "The local library has no playable round",
                ),
            );
        }
        runner::emit(&mut effects, Effect::Drained);
        let s = RunStep { state, effects, action: RunAction::Park };
        assert(s.deep_view() =~= settled(before, views, pos as nat, state));
        return s;
    }
    if state.first_round {
        let mut message = "Checking ".to_owned();
        let count = text::spell(round.len() as u64);
        message.append(count.as_str());
        message.append(" round file(s) in the local cache");
        runner::emit(
            &mut effects,
            progress("file-cache.check", SyncProgressState::Started, message.as_str()),
        );
    }
    r.round = Some(round);
    r.pos = pos;
    let none: Vec<String> = Vec::new();
    assert(none.deep_view() =~= Seq::empty());
    r.deferred = none;
    r.playing = None;
    r.loaded_any = false;
    let state = LoopState { start: pos, ..state };
    let s = RunStep { state, effects, action: RunAction::CheckFiles };
    assert(s.effects.deep_view() =~= before + loaded_effects(views, state.first_round));
    s
}

/// Loads a round.
pub fn load_round_at(r: &mut Runner, library: &mut Replica, state: LoopState, now: &str) -> (s:
    RunStep)
    requires
        old(library).deep_view().well_formed(),
    ensures
        s.deep_view() == load_step(
            old(library).deep_view(),
            old(r).deep_view().playlists,
            state,
        ),
        final(library).deep_view() == after_loading(
            old(library).deep_view(),
            old(r).deep_view().playlists,
            now@,
        ),
        final(library).deep_view().well_formed(),
        final(r).deep_view() == match next_to_play(
            old(library).deep_view(),
            old(r).deep_view().playlists,
        ) {
            (round, pos) => if round.len() == 0 {
                old(r).deep_view()
            } else {
                round_on(old(r).deep_view(), round, pos)
            },
        },
{
    let ghost v = library.deep_view();
    let ghost pls = r.playlists.deep_view();
    let mut effects: Vec<Effect> = Vec::new();
    assert(effects.deep_view() =~= Seq::empty());
    if state.first_round {
        runner::emit(
            &mut effects,
            progress(
                "local-round.load",
                SyncProgressState::Started,
                "Loading or selecting a round from the local replica",
            ),
        );
    }
    let (round, pos, renewed) = look_for_round(library, &r.playlists, now);
    if renewed && !state.first_round && round.len() > 0 {
        runner::emit(&mut effects, Effect::RequestPush);
    }
    assert(effects.deep_view() =~= loading_effects(v, pls, state.first_round));
    if round.len() == 0 && state.first_round && state.background_sync {
        return RunStep { state, effects, action: RunAction::Reconcile };
    }
    put_on(r, effects, round, pos, state)
}

/// Loads a round once the origin was waited for.
pub fn reconciled_at(r: &mut Runner, library: &mut Replica, state: LoopState, now: &str) -> (s:
    RunStep)
    requires
        old(library).deep_view().well_formed(),
    ensures
        s.deep_view() == retry_step(
            old(library).deep_view(),
            old(r).deep_view().playlists,
            state,
        ),
        final(library).deep_view() == after_loading(
            old(library).deep_view(),
            old(r).deep_view().playlists,
            now@,
        ),
        final(library).deep_view().well_formed(),
        final(r).deep_view() == match next_to_play(
            old(library).deep_view(),
            old(r).deep_view().playlists,
        ) {
            (round, pos) => if round.len() == 0 {
                old(r).deep_view()
            } else {
                round_on(old(r).deep_view(), round, pos)
            },
        },
{
    let effects: Vec<Effect> = Vec::new();
    assert(effects.deep_view() =~= Seq::empty());
    let (round, pos, _) = look_for_round(library, &r.playlists, now);
    put_on(r, effects, round, pos, LoopState { background_sync: false, ..state })
}

/// Loads a round at the time of the call.
pub fn load_round(r: &mut Runner, library: &mut Replica, state: LoopState) -> (s: RunStep)
    requires
        old(library).deep_view().well_formed(),
    ensures
        s.deep_view() == load_step(
            old(library).deep_view(),
            old(r).deep_view().playlists,
            state,
        ),
        exists|now: Seq<char>|
            final(library).deep_view() == #[trigger] after_loading(
                old(library).deep_view(),
                old(r).deep_view().playlists,
                now,
            ),
        final(library).deep_view().well_formed(),
        final(r).deep_view() == match next_to_play(
            old(library).deep_view(),
            old(r).deep_view().playlists,
        ) {
            (round, pos) => if round.len() == 0 {
                old(r).deep_view()
            } else {
                round_on(old(r).deep_view(), round, pos)
            },
        },
{
    let now = clock::now();
    load_round_at(r, library, state, now.as_str())
}

/// Loads a round once the origin was waited for, at the time of the call.
pub fn reconciled(r: &mut Runner, library: &mut Replica, state: LoopState) -> (s: RunStep)
    requires
        old(library).deep_view().well_formed(),
    ensures
        s.deep_view() == retry_step(
            old(library).deep_view(),
            old(r).deep_view().playlists,
            state,
        ),
        exists|now: Seq<char>|
            final(library).deep_view() == #[trigger] after_loading(
                old(library).deep_view(),
                old(r).deep_view().playlists,
                now,
            ),
        final(library).deep_view().well_formed(),
        final(r).deep_view() == match next_to_play(
            old(library).deep_view(),
            old(r).deep_view().playlists,
        ) {
            (round, pos) => if round.len() == 0 {
                old(r).deep_view()
            } else {
                round_on(old(r).deep_view(), round, pos)
            },
        },
{
    let now = clock::now();
    reconciled_at(r, library, state, now.as_str())
}

// ── playing it ──────────────────────────────────────────────────────────

/// The player's playlist: the first file replaces it, the others are appended.
pub open spec fn queued(round: Seq<rounds::RoundEntryView>) -> Seq<EffectView> {
    Seq::new(
        round.len(),
        |i: int|
            EffectView::Play {
                path: round[i].local_path,
                mode: if i == 0 {
                    "replace"@
                } else {
                    "append-play"@
                },
            },
    )
}

/// What is said of the files of the first round.
pub open spec fn files_told(report: filesync::ReportView, duration_ms: u64) -> EffectView {
    EffectView::Progress(
        sync::report(
            "file-cache.check"@,
            if report.incomplete() {
                SyncProgressState::Failed
            } else {
                SyncProgressState::Succeeded
            },
            "Local round file check: "@ + filesync::summary_of(report),
        ).lasting(duration_ms),
    )
}

/// What is said and asked for once the first round is on.
pub open spec fn first_round_on(
    round: Seq<rounds::RoundEntryView>,
    background_sync: bool,
    queue_dirty: bool,
) -> Seq<EffectView> {
    let loaded = seq![
        told(
            "local-round.load"@,
            SyncProgressState::Succeeded,
            "Loaded "@ + text::decimal(round.len()) + " episode(s) from the local replica"@,
        ),
    ];
    if background_sync {
        loaded.push(EffectView::RequestFullSync)
    } else if queue_dirty {
        loaded.push(EffectView::RequestPush)
    } else {
        loaded
    }
}

/// What is done once the files of the round are there as far as can be: the round
/// is queued and started.
pub open spec fn files_step(
    round: Seq<rounds::RoundEntryView>,
    state: LoopState,
    report: filesync::ReportView,
    duration_ms: u64,
    queue_dirty: bool,
) -> RunStepView {
    let checked = if state.first_round {
        seq![files_told(report, duration_ms)]
    } else {
        Seq::empty()
    };
    let start = seq![
        EffectView::SetPlaylistPos(state.start as nat),
        EffectView::Round(state.start as nat),
    ];
    let last = if state.first_round {
        first_round_on(round, state.background_sync, queue_dirty)
    } else {
        Seq::empty()
    };
    RunStepView {
        state: LoopState { first_round: false, ..state },
        effects: checked + seq![EffectView::FilesChecked(report)] + queued(round) + start + last,
        action: RunAction::WaitForRoundEnd,
    }
}

fn queue_round(round: &Vec<RoundEntry>, effects: &mut Vec<Effect>)
    ensures
        final(effects).deep_view() == old(effects).deep_view() + queued(round.deep_view()),
{
    let ghost before = effects.deep_view();
    let ghost views = round.deep_view();
    let mut i: usize = 0;
    assert(effects.deep_view() =~= before + queued(views).take(0));
    while i < round.len()
        invariant
            i <= round@.len(),
            views == round.deep_view(),
            effects.deep_view() == before + queued(views).take(i as int),
        decreases round.len() - i,
    {
        assert(views[i as int] == round@[i as int].deep_view());
        let mode = if i == 0 {
            "replace"
        } else {
            "append-play"
        };
        let path = runner::copy_path(&round[i].local_path);
        runner::emit(effects, Effect::Play { path, mode });
        assert(effects.deep_view() =~= before + queued(views).take(i + 1));
        i = i + 1;
    }
    assert(queued(views).take(i as int) =~= queued(views));
}

/// Starts the round once its files were brought.
pub fn files_checked(
    r: &Runner,
    state: LoopState,
    report: FileSyncReport,
    duration_ms: u64,
    queue_dirty: bool,
) -> (s: RunStep)
    ensures
        s.deep_view() == files_step(
            match r.deep_view().round {
                Some(round) => round,
                None => Seq::empty(),
            },
            state,
            report.deep_view(),
            duration_ms,
            queue_dirty,
        ),
{
    let mut effects: Vec<Effect> = Vec::new();
    assert(effects.deep_view() =~= Seq::empty());
    let none: Vec<RoundEntry> = Vec::new();
    assert(none.deep_view() =~= Seq::empty());
    let round: &Vec<RoundEntry> = match &r.round {
        Some(round) => round,
        None => &none,
    };
    let ghost rv = report.deep_view();
    let ghost views = round.deep_view();
    if state.first_round {
        let message = "Local round file check: ".to_owned().concat(report.summary().as_str());
        let outcome = if report.incomplete() {
            SyncProgressState::Failed
        } else {
            SyncProgressState::Succeeded
        };
        runner::emit(
            &mut effects,
            Effect::Progress(
                SyncProgress::new("file-cache.check", outcome, message.as_str()).with_duration(
                    duration_ms,
                ),
            ),
        );
    }
    runner::emit(&mut effects, Effect::FilesChecked(report));
    queue_round(round, &mut effects);
    runner::emit(&mut effects, Effect::SetPlaylistPos(state.start));
    runner::emit(&mut effects, Effect::Round(state.start));
    if state.first_round {
        let mut message = "Loaded ".to_owned();
        let count = text::spell(round.len() as u64);
        message.append(count.as_str());
        message.append(" episode(s) from the local replica");
        runner::emit(
            &mut effects,
            progress("local-round.load", SyncProgressState::Succeeded, message.as_str()),
        );
        if state.background_sync {
            runner::emit(&mut effects, Effect::RequestFullSync);
        } else if queue_dirty {
            runner::emit(&mut effects, Effect::RequestPush);
        }
    }
    let s = RunStep {
        state: LoopState { first_round: false, ..state },
        effects,
        action: RunAction::WaitForRoundEnd,
    };
    assert(s.effects.deep_view() =~= files_step(
        views,
        state,
        rv,
        duration_ms,
        queue_dirty,
    ).effects);
    s
}

/// What is done when the wait for the end of the round is over.
pub open spec fn end_step(
    r: RunnerView,
    state: LoopState,
    waited: Result<(), PlayerShutdown>,
    stopped: bool,
) -> RunStepView {
    let nothing = RunStepView { state, effects: Seq::empty(), action: RunAction::Stop };
    if stopped {
        nothing
    } else {
        match waited {
            Err(why) => if why.0@ == "interrupted"@ {
                RunStepView { action: RunAction::LoadRound, ..nothing }
            } else {
                nothing
            },
            Ok(_) => if r.loaded_any {
                RunStepView {
                    state,
                    effects: seq![EffectView::ClearPlaylist, EffectView::RequestPush],
                    action: RunAction::LoadRound,
                }
            } else {
                RunStepView {
                    state,
                    effects: seq![
                        EffectView::ClearPlaylist,
                        EffectView::Failed(
                            "no playable media — check that the show files are reachable"@,
                        ),
                    ],
                    action: RunAction::Park,
                }
            },
        }
    }
}

/// The wait for the end of the round is over. Where nothing of the round would
/// open, the loop parks instead of going round for ever.
pub fn round_ended(
    r: &mut Runner,
    state: LoopState,
    waited: Result<(), PlayerShutdown>,
    stopped: bool,
) -> (s: RunStep)
    ensures
        s.deep_view() == end_step(old(r).deep_view(), state, waited, stopped),
        final(r).deep_view() == if !stopped && waited is Ok {
            RunnerView { round: None, ..old(r).deep_view() }
        } else {
            old(r).deep_view()
        },
{
    let mut effects: Vec<Effect> = Vec::new();
    assert(effects.deep_view() =~= Seq::empty());
    if stopped {
        return RunStep { state, effects, action: RunAction::Stop };
    }
    match waited {
        Err(why) => {
            let action = if text::same_text(why.0.as_str(), "interrupted") {
                RunAction::LoadRound
            } else {
                RunAction::Stop
            };
            RunStep { state, effects, action }
        },
        Ok(_) => {
            runner::emit(&mut effects, Effect::ClearPlaylist);
            r.round = None;
            if r.loaded_any {
                runner::emit(&mut effects, Effect::RequestPush);
                assert(effects.deep_view() =~= seq![
                    EffectView::ClearPlaylist,
                    EffectView::RequestPush,
                ]);
                RunStep { state, effects, action: RunAction::LoadRound }
            } else {
                runner::emit(
                    &mut effects,
                    Effect::Failed("no playable media — check that the show files are reachable"),
                );
                assert(effects.deep_view() =~= seq![
                    EffectView::ClearPlaylist,
                    EffectView::Failed(
                        "no playable media — check that the show files are reachable"@,
                    ),
                ]);
                RunStep { state, effects, action: RunAction::Park }
            }
        },
    }
}

} // verus!
