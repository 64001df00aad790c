//! A run of syncing with the origin: what is attempted in which order, what is
//! reported on the way, and what the outcome says of the connection.
//!
//! The connection is never polled. Every attempt sets it online or, with the
//! reason, offline; a failed attempt ends the run. The caller opens the origin,
//! asks it and writes to it; [`Syncer::step`] takes what came of the last such
//! action and says what to report and what to do next.

use vstd::prelude::*;

use crate::model;
use crate::model::{LibraryQueue, LibraryShow};
use crate::text;

verus! {

/// What has not been pushed yet.
#[derive(Debug, Clone, Copy, PartialEq, Eq)]
pub struct PendingBreakdown {
    pub shows: i64,
    pub episodes: i64,
    pub history: i64,
    pub queue: i64,
}

impl PendingBreakdown {
    /// The sum of the counts.
    pub open spec fn sum(self) -> int {
        self.shows + self.episodes + self.history + self.queue
    }

    /// The counts are counts, and their sum is one.
    pub open spec fn fits(self) -> bool {
        &&& self.shows >= 0
        &&& self.episodes >= 0
        &&& self.history >= 0
        &&& self.queue >= 0
        &&& self.sum() <= i64::MAX
    }

    /// How many changes are pending.
    pub fn total(&self) -> (r: i64)
        requires
            self.fits(),
        ensures
            r == self.sum(),
    {
        self.shows + self.episodes + self.history + self.queue
    }
}

#[derive(Debug, Clone, Copy, PartialEq, Eq, Structural)]
pub enum SyncProgressState {
    Started,
    Succeeded,
    Skipped,
    Failed,
}

pub open spec fn state_word(s: SyncProgressState) -> Seq<char> {
    match s {
        SyncProgressState::Started => "started"@,
        SyncProgressState::Succeeded => "succeeded"@,
        SyncProgressState::Skipped => "skipped"@,
        SyncProgressState::Failed => "failed"@,
    }
}

impl SyncProgressState {
    pub fn as_str(self) -> (r: &'static str)
        ensures
            r@ == state_word(self),
    {
        match self {
            SyncProgressState::Started => "started",
            SyncProgressState::Succeeded => "succeeded",
            SyncProgressState::Skipped => "skipped",
            SyncProgressState::Failed => "failed",
        }
    }
}

/// One report of how a run is coming along.
#[derive(Debug, Clone, PartialEq, Eq)]
pub struct SyncProgress {
    pub stage: String,
    pub state: SyncProgressState,
    pub message: String,
    pub duration_ms: Option<u64>,
    pub pending: Option<PendingBreakdown>,
}

#[verifier::ext_equal]
pub struct ProgressView {
    pub stage: Seq<char>,
    pub state: SyncProgressState,
    pub message: Seq<char>,
    pub duration_ms: Option<u64>,
    pub pending: Option<PendingBreakdown>,
}

impl DeepView for SyncProgress {
    type V = ProgressView;

    open spec fn deep_view(&self) -> ProgressView {
        ProgressView {
            stage: self.stage@,
            state: self.state,
            message: self.message@,
            duration_ms: self.duration_ms,
            pending: self.pending,
        }
    }
}

impl SyncProgress {
    pub fn new(stage: &str, state: SyncProgressState, message: &str) -> (r: SyncProgress)
        ensures
            r.deep_view() == report(stage@, state, message@),
    {
        SyncProgress {
            stage: stage.to_owned(),
            state,
            message: message.to_owned(),
            duration_ms: None,
            pending: None,
        }
    }

    pub fn with_duration(self, duration_ms: u64) -> (r: SyncProgress)
        ensures
            r.deep_view() == self.deep_view().lasting(duration_ms),
    {
        SyncProgress { duration_ms: Some(duration_ms), ..self }
    }

    pub fn with_pending(self, pending: PendingBreakdown) -> (r: SyncProgress)
        ensures
            r.deep_view() == self.deep_view().counting(pending),
    {
        SyncProgress { pending: Some(pending), ..self }
    }
}

pub open spec fn report(
    stage: Seq<char>,
    state: SyncProgressState,
    message: Seq<char>,
) -> ProgressView {
    ProgressView { stage, state, message, duration_ms: None, pending: None }
}

impl ProgressView {
    pub open spec fn lasting(self, duration_ms: u64) -> ProgressView {
        ProgressView { duration_ms: Some(duration_ms), ..self }
    }

    pub open spec fn counting(self, pending: PendingBreakdown) -> ProgressView {
        ProgressView { pending: Some(pending), ..self }
    }
}

// ── the run ─────────────────────────────────────────────────────────────

/// What a run is for: to pull only, to push only, or to push and then pull.
#[derive(Debug, Clone, Copy, PartialEq, Eq, Structural)]
pub enum Purpose {
    Seed,
    Push,
    Sync,
}

pub open spec fn purpose_word(p: Purpose) -> Seq<char> {
    match p {
        Purpose::Seed => "seed"@,
        Purpose::Push => "push"@,
        Purpose::Sync => "sync"@,
    }
}

impl Purpose {
    pub fn as_str(self) -> (r: &'static str)
        ensures
            r@ == purpose_word(self),
    {
        match self {
            Purpose::Seed => "seed",
            Purpose::Push => "push",
            Purpose::Sync => "sync",
        }
    }
}

/// What is to be done next.
#[derive(Debug, Clone, Copy, PartialEq, Eq, Structural)]
pub enum SyncAction {
    /// Open the origin.
    Open,
    /// Count the shows that the origin holds.
    CountShows,
    /// Mark everything here as not pushed.
    MarkAllDirty,
    /// Push what is pending.
    Push,
    /// Read the shows of the origin.
    LoadShows,
    /// Read the rounds of the origin.
    LoadQueues,
    /// Merge what was read.
    Merge,
    /// The run is over.
    Finish(bool),
}

/// What came of the last action.
#[derive(Debug)]
pub enum SyncEvent {
    /// The run begins.
    Begin,
    /// The origin is open, or why it is not; and whether there is a library here.
    Opened(Result<bool, String>),
    Counted(Result<i64, String>),
    MarkedDirty(Result<(), String>),
    Pushed(Result<(), String>),
    /// How many shows and episodes were read.
    ShowsLoaded(Result<(usize, usize), String>),
    /// How many entries of rounds were read.
    QueuesLoaded(Result<usize, String>),
    Merged,
}

/// How far a run has come. Times are milliseconds on one clock.
#[derive(Debug, Clone, Copy)]
pub struct SyncRun {
    pub purpose: Purpose,
    pub started: u64,
    pub stage_started: u64,
    pub pending: PendingBreakdown,
    pub shows: usize,
    pub episodes: usize,
}

/// The connection to the origin, as the last attempt left it.
#[derive(Debug, Clone)]
pub struct Syncer {
    shared_db_path: Option<String>,
    playlists: Vec<String>,
    online: bool,
    last_error: Option<String>,
}

#[verifier::ext_equal]
pub struct SyncerView {
    pub shared_db_path: Option<Seq<char>>,
    pub playlists: Seq<Seq<char>>,
    pub online: bool,
    pub last_error: Option<Seq<char>>,
}

impl DeepView for Syncer {
    type V = SyncerView;

    closed spec fn deep_view(&self) -> SyncerView {
        SyncerView {
            shared_db_path: self.shared_db_path.deep_view(),
            playlists: self.playlists.deep_view(),
            online: self.online,
            last_error: self.last_error.deep_view(),
        }
    }
}

/// What a step does.
#[verifier::ext_equal]
pub struct StepView {
    pub syncer: SyncerView,
    pub run: SyncRun,
    pub reports: Seq<ProgressView>,
    pub action: SyncAction,
}

impl StepView {
    pub open spec fn reporting(self, p: ProgressView) -> StepView {
        StepView { reports: self.reports.push(p), ..self }
    }

    pub open spec fn next(self, action: SyncAction) -> StepView {
        StepView { action, ..self }
    }

    pub open spec fn online(self) -> StepView {
        StepView {
            syncer: SyncerView { online: true, last_error: None, ..self.syncer },
            ..self
        }
    }

    pub open spec fn offline(self, reason: Seq<char>) -> StepView {
        StepView {
            syncer: SyncerView { online: false, last_error: Some(reason), ..self.syncer },
            ..self
        }
    }

    pub open spec fn at_stage(self, now: u64) -> StepView {
        StepView { run: SyncRun { stage_started: now, ..self.run }, ..self }
    }
}

/// The time since a moment; none where the clock went back.
pub open spec fn elapsed(started: u64, now: u64) -> u64 {
    if now >= started {
        (now - started) as u64
    } else {
        0
    }
}

pub open spec fn path_word(path: Option<Seq<char>>) -> Seq<char> {
    match path {
        Some(p) => p,
        None => "(not configured)"@,
    }
}

pub open spec fn count_of(n: int) -> Seq<char> {
    text::signed_decimal(n)
}

/// A run is over: a full one says so.
pub open spec fn completed(s: StepView, ok: bool, pending: PendingBreakdown, now: u64) -> StepView {
    let told = match s.run.purpose {
        Purpose::Sync => s.reporting(
            report(
                "origin.complete"@,
                if ok {
                    SyncProgressState::Succeeded
                } else {
                    SyncProgressState::Failed
                },
                if ok {
                    "Startup sync completed"@
                } else {
                    "Startup sync failed; local playback remains available"@
                },
            ).lasting(elapsed(s.run.started, now)).counting(pending),
        ),
        _ => s,
    };
    told.next(SyncAction::Finish(ok))
}

/// The pull begins.
pub open spec fn pulling(s: StepView, now: u64) -> StepView {
    s.reporting(
        report(
            "origin.pull"@,
            SyncProgressState::Started,
            "Reading shared library for "@ + text::joined_with(s.syncer.playlists, ", "@),
        ),
    ).at_stage(now).next(SyncAction::LoadShows)
}

/// A stage failed for a reason: the origin is offline, and the run is over.
pub open spec fn pull_failed(
    s: StepView,
    reason: Seq<char>,
    pending: PendingBreakdown,
    now: u64,
) -> StepView {
    completed(
        s.offline(reason).reporting(
            report("origin.pull"@, SyncProgressState::Failed, reason).lasting(
                elapsed(s.run.stage_started, now),
            ),
        ),
        false,
        pending,
        now,
    )
}

/// The push is over: a full run goes on to the pull, if the push did not fail.
pub open spec fn push_done(s: StepView, ok: bool, pending: PendingBreakdown, now: u64) -> StepView {
    match s.run.purpose {
        Purpose::Sync => if ok {
            pulling(s, now)
        } else {
            completed(
                s.reporting(
                    report(
                        "origin.pull"@,
                        SyncProgressState::Skipped,
                        "Pull was not attempted because the local push failed"@,
                    ),
                ),
                false,
                pending,
                now,
            )
        },
        _ => s.next(SyncAction::Finish(ok)),
    }
}

pub open spec fn push_failed(
    s: StepView,
    reason: Seq<char>,
    told: PendingBreakdown,
    pending: PendingBreakdown,
    now: u64,
) -> StepView {
    push_done(
        s.offline(reason).reporting(
            report("origin.push"@, SyncProgressState::Failed, reason).lasting(
                elapsed(s.run.stage_started, now),
            ).counting(told),
        ),
        false,
        pending,
        now,
    )
}

/// What is pending is known: push it, unless it is nothing.
pub open spec fn push_checked(s: StepView, pending: PendingBreakdown, now: u64) -> StepView {
    if s.run.pending.sum() == 0 {
        push_done(
            s.online().reporting(
                report(
                    "origin.push"@,
                    SyncProgressState::Skipped,
                    "No local changes needed pushing"@,
                ).lasting(elapsed(s.run.stage_started, now)).counting(s.run.pending),
            ),
            true,
            pending,
            now,
        )
    } else {
        s.next(SyncAction::Push)
    }
}

/// The push begins. An origin that is empty is filled from the library here.
pub open spec fn pushing(
    s: StepView,
    has_library: bool,
    pending: PendingBreakdown,
    now: u64,
) -> StepView {
    let t = StepView {
        run: SyncRun { stage_started: now, pending, ..s.run },
        ..s.reporting(
            report(
                "origin.push"@,
                SyncProgressState::Started,
                "Checking "@ + count_of(pending.sum()) + " pending local change(s)"@,
            ).counting(pending),
        )
    };
    if has_library {
        t.next(SyncAction::CountShows)
    } else {
        push_checked(t, pending, now)
    }
}

/// The origin could not be opened. A full run says what was not attempted.
pub open spec fn not_opened(
    s: StepView,
    e: Seq<char>,
    pending: PendingBreakdown,
    now: u64,
) -> StepView {
    let reason = "Failed to open shared DB for "@ + purpose_word(s.run.purpose) + ": "@ + e;
    let t = s.offline(reason).reporting(
        report("origin.connect"@, SyncProgressState::Failed, reason).lasting(
            elapsed(s.run.stage_started, now),
        ),
    ).next(SyncAction::Finish(false));
    match s.run.purpose {
        Purpose::Sync => t.reporting(
            report(
                "origin.push"@,
                SyncProgressState::Skipped,
                "Push was not attempted because the shared database connection failed"@,
            ).counting(pending),
        ).reporting(
            report(
                "origin.pull"@,
                SyncProgressState::Skipped,
                "Pull was not attempted because the shared database connection failed"@,
            ),
        ).reporting(
            report(
                "origin.complete"@,
                SyncProgressState::Failed,
                "Startup sync could not connect to the shared database"@,
            ).lasting(elapsed(s.run.started, now)).counting(pending),
        ),
        _ => t,
    }
}

/// What a step does, given what came of the last action, what is pending now,
/// and the time.
pub open spec fn stepped(
    syncer: SyncerView,
    run: SyncRun,
    event: SyncEvent,
    pending: PendingBreakdown,
    now: u64,
) -> StepView {
    let s = StepView { syncer, run, reports: Seq::empty(), action: SyncAction::Open };
    let path = path_word(syncer.shared_db_path);
    match event {
        SyncEvent::Begin => StepView {
            run: SyncRun { started: now, stage_started: now, ..run },
            ..s.reporting(
                report(
                    "origin.connect"@,
                    SyncProgressState::Started,
                    "Opening shared database at "@ + path,
                ),
            )
        },
        SyncEvent::Opened(Ok(has_library)) => {
            let t = s.reporting(
                report(
                    "origin.connect"@,
                    SyncProgressState::Succeeded,
                    "Opened shared database at "@ + path,
                ).lasting(elapsed(run.stage_started, now)),
            );
            match run.purpose {
                Purpose::Seed => pulling(t, now),
                _ => pushing(t, has_library, pending, now),
            }
        },
        SyncEvent::Opened(Err(e)) => not_opened(s, e@, pending, now),
        SyncEvent::Counted(Ok(shows)) => if shows == 0 {
            s.next(SyncAction::MarkAllDirty)
        } else {
            push_checked(s, pending, now)
        },
        SyncEvent::Counted(Err(e)) => push_failed(
            s,
            "Failed to inspect shared database before push: "@ + e@,
            run.pending,
            pending,
            now,
        ),
        SyncEvent::MarkedDirty(Ok(_)) => push_checked(
            StepView { run: SyncRun { pending, ..run }, ..s },
            pending,
            now,
        ),
        SyncEvent::MarkedDirty(Err(e)) => push_failed(
            s,
            "Failed to prepare local library for origin seed: "@ + e@,
            run.pending,
            pending,
            now,
        ),
        SyncEvent::Pushed(Ok(_)) => push_done(
            s.online().reporting(
                report(
                    "origin.push"@,
                    SyncProgressState::Succeeded,
                    "Pushed "@ + count_of(run.pending.sum()) + " local change(s)"@,
                ).lasting(elapsed(run.stage_started, now)).counting(run.pending),
            ),
            true,
            pending,
            now,
        ),
        SyncEvent::Pushed(Err(e)) => push_failed(
            s,
            "Push failed; "@ + count_of(pending.sum()) + " change(s) stay queued: "@ + e@,
            pending,
            pending,
            now,
        ),
        SyncEvent::ShowsLoaded(Ok((shows, episodes))) => StepView {
            run: SyncRun { shows, episodes, ..run },
            ..s.next(SyncAction::LoadQueues)
        },
        SyncEvent::ShowsLoaded(Err(e)) => pull_failed(
            s,
            "Failed to load shows from shared DB: "@ + e@,
            pending,
            now,
        ),
        SyncEvent::QueuesLoaded(Ok(entries)) => s.reporting(
            report(
                "origin.pull"@,
                SyncProgressState::Succeeded,
                "Read "@ + text::decimal(run.shows as nat) + " show(s), "@ + text::decimal(
                    run.episodes as nat,
                ) + " episode(s), and "@ + text::decimal(entries as nat) + " queue entry(s)"@,
            ).lasting(elapsed(run.stage_started, now)),
        ).reporting(
            report(
                "replica.merge"@,
                SyncProgressState::Started,
                "Merging shared changes into the local replica"@,
            ),
        ).at_stage(now).next(SyncAction::Merge),
        SyncEvent::QueuesLoaded(Err(e)) => pull_failed(
            s,
            "Failed to load queues from shared DB: "@ + e@,
            pending,
            now,
        ),
        SyncEvent::Merged => completed(
            s.online().reporting(
                report(
                    "replica.merge"@,
                    SyncProgressState::Succeeded,
                    "Merged "@ + text::decimal(run.shows as nat)
                        + " show(s) into the local replica"@,
                ).lasting(elapsed(run.stage_started, now)),
            ),
            true,
            pending,
            now,
        ),
    }
}

/// What a step found to report and to do.
#[derive(Debug, Clone)]
pub struct SyncStep {
    pub run: SyncRun,
    pub reports: Vec<SyncProgress>,
    pub action: SyncAction,
}

impl SyncStep {
    pub open spec fn with(self, syncer: Syncer) -> StepView {
        StepView {
            syncer: syncer.deep_view(),
            run: self.run,
            reports: self.reports.deep_view(),
            action: self.action,
        }
    }

    fn report(&mut self, p: SyncProgress)
        ensures
            final(self).run == old(self).run,
            final(self).action == old(self).action,
            final(self).reports.deep_view() == old(self).reports.deep_view().push(p.deep_view()),
    {
        let ghost before = self.reports.deep_view();
        self.reports.push(p);
        assert(self.reports.deep_view() =~= before.push(p.deep_view()));
    }
}

fn elapsed_ms(started: u64, now: u64) -> (r: u64)
    ensures
        r == elapsed(started, now),
{
    if now >= started {
        now - started
    } else {
        0
    }
}

fn complete(step: &mut SyncStep, ok: bool, pending: PendingBreakdown, now: u64)
    ensures
        forall|s: Syncer| #[trigger]
            final(step).with(s) == completed(old(step).with(s), ok, pending, now),
{
    match step.run.purpose {
        Purpose::Sync => {
            let state = if ok {
                SyncProgressState::Succeeded
            } else {
                SyncProgressState::Failed
            };
            let message = if ok {
                "Startup sync completed"
            } else {
                "Startup sync failed; local playback remains available"
            };
            let duration: u64 = elapsed_ms(step.run.started, now);
            step.report(
                SyncProgress::new("origin.complete", state, message).with_duration(
                    duration,
                ).with_pending(pending),
            );
        },
        _ => {},
    }
    step.action = SyncAction::Finish(ok);
}

/// How many episodes the shows have.
pub open spec fn episodes_among(shows: Seq<model::LibraryShowView>) -> nat
    decreases shows.len(),
{
    if shows.len() == 0 {
        0
    } else {
        episodes_among(shows.drop_last()) + shows.last().episodes.len()
    }
}

/// How many entries the rounds have.
pub open spec fn entries_among(queues: Seq<model::LibraryQueueView>) -> nat
    decreases queues.len(),
{
    if queues.len() == 0 {
        0
    } else {
        entries_among(queues.drop_last()) + queues.last().entries.len()
    }
}

proof fn lemma_episodes_among(shows: Seq<model::LibraryShowView>, i: int)
    requires
        0 <= i <= shows.len(),
    ensures
        episodes_among(shows.take(i)) <= episodes_among(shows),
    decreases shows.len(),
{
    if i < shows.len() {
        lemma_episodes_among(shows.drop_last(), i);
        assert(shows.drop_last().take(i) =~= shows.take(i));
    } else {
        assert(shows.take(i) =~= shows);
    }
}

proof fn lemma_entries_among(queues: Seq<model::LibraryQueueView>, i: int)
    requires
        0 <= i <= queues.len(),
    ensures
        entries_among(queues.take(i)) <= entries_among(queues),
    decreases queues.len(),
{
    if i < queues.len() {
        lemma_entries_among(queues.drop_last(), i);
        assert(queues.drop_last().take(i) =~= queues.take(i));
    } else {
        assert(queues.take(i) =~= queues);
    }
}

/// Counts the episodes of shows that were read.
pub fn episode_count(shows: &Vec<LibraryShow>) -> (r: usize)
    requires
        episodes_among(shows.deep_view()) <= usize::MAX,
    ensures
        r == episodes_among(shows.deep_view()),
{
    let ghost views = shows.deep_view();
    let mut n: usize = 0;
    let mut i: usize = 0;
    while i < shows.len()
        invariant
            i <= shows@.len(),
            views == shows.deep_view(),
            n == episodes_among(views.take(i as int)),
            episodes_among(views) <= usize::MAX,
        decreases shows.len() - i,
    {
        proof {
            assert(views[i as int] == shows@[i as int].deep_view());
            assert(views.take(i + 1).drop_last() =~= views.take(i as int));
            lemma_episodes_among(views, i + 1);
        }
        n = n + shows[i].episodes.len();
        i = i + 1;
    }
    assert(views.take(i as int) =~= views);
    n
}

/// Counts the entries of rounds that were read.
pub fn entry_count(queues: &Vec<LibraryQueue>) -> (r: usize)
    requires
        entries_among(queues.deep_view()) <= usize::MAX,
    ensures
        r == entries_among(queues.deep_view()),
{
    let ghost views = queues.deep_view();
    let mut n: usize = 0;
    let mut i: usize = 0;
    while i < queues.len()
        invariant
            i <= queues@.len(),
            views == queues.deep_view(),
            n == entries_among(views.take(i as int)),
            entries_among(views) <= usize::MAX,
        decreases queues.len() - i,
    {
        proof {
            assert(views[i as int] == queues@[i as int].deep_view());
            assert(views.take(i + 1).drop_last() =~= views.take(i as int));
            lemma_entries_among(views, i + 1);
        }
        n = n + queues[i].entries.len();
        i = i + 1;
    }
    assert(views.take(i as int) =~= views);
    n
}

/// Where the shared database lies when nothing else is told.
pub const DEFAULT_SHARED_DB: &'static str = "S:\\shows.db";

/// Where the shared database lies: where it was told to, unless that is empty.
pub fn shared_database(told: Option<String>) -> (r: String)
    ensures
        r@ == if told is Some && told->0@.len() > 0 {
            told->0@
        } else {
            DEFAULT_SHARED_DB@
        },
{
    match told {
        Some(path) => if path.as_str().is_empty() {
            DEFAULT_SHARED_DB.to_string()
        } else {
            path
        },
        None => DEFAULT_SHARED_DB.to_string(),
    }
}

impl Syncer {
    /// A connection that no attempt was made on. It counts as online until one
    /// fails.
    pub fn new(shared_db_path: Option<String>, playlists: Vec<String>) -> (r: Syncer)
        ensures
            r.deep_view() == (SyncerView {
                shared_db_path: shared_db_path.deep_view(),
                playlists: playlists.deep_view(),
                online: true,
                last_error: None,
            }),
    {
        Syncer { shared_db_path, playlists, online: true, last_error: None }
    }

    pub fn online(&self) -> (r: bool)
        ensures
            r == self.deep_view().online,
    {
        self.online
    }

    pub fn shared_db_path(&self) -> (r: Option<String>)
        ensures
            r.deep_view() == self.deep_view().shared_db_path,
    {
        self.shared_db_path.clone()
    }

    pub fn last_error(&self) -> (r: Option<String>)
        ensures
            r.deep_view() == self.deep_view().last_error,
    {
        self.last_error.clone()
    }

    fn mark_online(&mut self)
        ensures
            final(self).deep_view() == (SyncerView {
                online: true,
                last_error: None,
                ..old(self).deep_view()
            }),
    {
        self.online = true;
        self.last_error = None;
    }

    fn mark_offline(&mut self, reason: &str)
        ensures
            final(self).deep_view() == (SyncerView {
                online: false,
                last_error: Some(reason@),
                ..old(self).deep_view()
            }),
    {
        self.online = false;
        self.last_error = Some(reason.to_owned());
    }

    fn path(&self) -> (r: String)
        ensures
            r@ == path_word(self.deep_view().shared_db_path),
    {
        match &self.shared_db_path {
            Some(p) => p.clone(),
            None => "(not configured)".to_owned(),
        }
    }

    fn begin_pull(&self, step: &mut SyncStep, now: u64)
        ensures
            final(step).with(*self) == pulling(old(step).with(*self), now),
    {
        let names = text::join_text(self.playlists.as_slice(), ", ");
        let message = "Reading shared library for ".to_owned().concat(names.as_str());
        step.report(
            SyncProgress::new("origin.pull", SyncProgressState::Started, message.as_str()),
        );
        step.run.stage_started = now;
        step.action = SyncAction::LoadShows;
    }

    fn fail_pull(&mut self, step: &mut SyncStep, reason: String, pending: PendingBreakdown, now: u64)
        ensures
            final(step).with(*final(self)) == pull_failed(
                old(step).with(*old(self)),
                reason@,
                pending,
                now,
            ),
    {
        self.mark_offline(reason.as_str());
        let duration: u64 = elapsed_ms(step.run.stage_started, now);
        step.report(
            SyncProgress::new(
                "origin.pull",
                SyncProgressState::Failed,
                reason.as_str(),
            ).with_duration(duration),
        );
        complete(step, false, pending, now);
        assert(step.with(*self) == pull_failed(
            old(step).with(*old(self)),
            reason@,
            pending,
            now,
        ));
    }

    fn end_push(&self, step: &mut SyncStep, ok: bool, pending: PendingBreakdown, now: u64)
        ensures
            final(step).with(*self) == push_done(old(step).with(*self), ok, pending, now),
    {
        match step.run.purpose {
            Purpose::Sync => {
                if ok {
                    self.begin_pull(step, now);
                } else {
                    step.report(
                        SyncProgress::new(
                            "origin.pull",
                            SyncProgressState::Skipped,
                            "Pull was not attempted because the local push failed",
                        ),
                    );
                    complete(step, false, pending, now);
                    assert(step.with(*self) == push_done(
                        old(step).with(*self),
                        ok,
                        pending,
                        now,
                    ));
                }
            },
            _ => {
                step.action = SyncAction::Finish(ok);
            },
        }
    }

    fn fail_push(
        &mut self,
        step: &mut SyncStep,
        reason: String,
        told: PendingBreakdown,
        pending: PendingBreakdown,
        now: u64,
    )
        ensures
            final(step).with(*final(self)) == push_failed(
                old(step).with(*old(self)),
                reason@,
                told,
                pending,
                now,
            ),
    {
        self.mark_offline(reason.as_str());
        let duration: u64 = elapsed_ms(step.run.stage_started, now);
        step.report(
            SyncProgress::new(
                "origin.push",
                SyncProgressState::Failed,
                reason.as_str(),
            ).with_duration(duration).with_pending(told),
        );
        self.end_push(step, false, pending, now);
    }

    fn check_push(&mut self, step: &mut SyncStep, pending: PendingBreakdown, now: u64)
        requires
            old(step).run.pending.fits(),
        ensures
            final(step).with(*final(self)) == push_checked(old(step).with(*old(self)), pending, now),
    {
        if step.run.pending.total() == 0 {
            self.mark_online();
            let duration: u64 = elapsed_ms(step.run.stage_started, now);
            let told = step.run.pending;
            step.report(
                SyncProgress::new(
                    "origin.push",
                    SyncProgressState::Skipped,
                    "No local changes needed pushing",
                ).with_duration(duration).with_pending(told),
            );
            self.end_push(step, true, pending, now);
        } else {
            step.action = SyncAction::Push;
        }
    }

    fn begin_push(
        &mut self,
        step: &mut SyncStep,
        has_library: bool,
        pending: PendingBreakdown,
        now: u64,
    )
        requires
            pending.fits(),
        ensures
            final(step).with(*final(self)) == pushing(
                old(step).with(*old(self)),
                has_library,
                pending,
                now,
            ),
    {
        let mut message = "Checking ".to_owned();
        let count = text::spell_signed(pending.total());
        message.append(count.as_str());
        message.append(" pending local change(s)");
        step.report(
            SyncProgress::new(
                "origin.push",
                SyncProgressState::Started,
                message.as_str(),
            ).with_pending(pending),
        );
        step.run.stage_started = now;
        step.run.pending = pending;
        if has_library {
            step.action = SyncAction::CountShows;
        } else {
            self.check_push(step, pending, now);
        }
    }

    fn fail_open(&mut self, step: &mut SyncStep, e: &str, pending: PendingBreakdown, now: u64)
        ensures
            final(step).with(*final(self)) == not_opened(
                old(step).with(*old(self)),
                e@,
                pending,
                now,
            ),
    {
        let mut reason = "Failed to open shared DB for ".to_owned();
        reason.append(step.run.purpose.as_str());
        reason.append(": ");
        reason.append(e);
        self.mark_offline(reason.as_str());
        let duration: u64 = elapsed_ms(step.run.stage_started, now);
        step.report(
            SyncProgress::new(
                "origin.connect",
                SyncProgressState::Failed,
                reason.as_str(),
            ).with_duration(duration),
        );
        match step.run.purpose {
            Purpose::Sync => {
                step.report(
                    SyncProgress::new(
                        "origin.push",
                        SyncProgressState::Skipped,
                        "Push was not attempted because the shared database connection failed",
                    ).with_pending(pending),
                );
                step.report(
                    SyncProgress::new(
                        "origin.pull",
                        SyncProgressState::Skipped,
                        "Pull was not attempted because the shared database connection failed",
                    ),
                );
                let whole: u64 = elapsed_ms(step.run.started, now);
                step.report(
                    SyncProgress::new(
                        "origin.complete",
                        SyncProgressState::Failed,
                        "Startup sync could not connect to the shared database",
                    ).with_duration(whole).with_pending(pending),
                );
            },
            _ => {},
        }
        step.action = SyncAction::Finish(false);
    }

    /// A run that has not begun.
    pub fn run(purpose: Purpose) -> (r: SyncRun)
        ensures
            r == (SyncRun {
                purpose,
                started: 0,
                stage_started: 0,
                pending: PendingBreakdown { shows: 0, episodes: 0, history: 0, queue: 0 },
                shows: 0,
                episodes: 0,
            }),
    {
        SyncRun {
            purpose,
            started: 0,
            stage_started: 0,
            pending: PendingBreakdown { shows: 0, episodes: 0, history: 0, queue: 0 },
            shows: 0,
            episodes: 0,
        }
    }

    /// Takes what came of the last action of a run, what is pending now and the
    /// time, and says what to report and what to do next.
    pub fn step(
        &mut self,
        run: SyncRun,
        event: SyncEvent,
        pending: PendingBreakdown,
        now: u64,
    ) -> (r: SyncStep)
        requires
            run.pending.fits(),
            pending.fits(),
        ensures
            r.with(*final(self)) == stepped(old(self).deep_view(), run, event, pending, now),
            r.run.pending.fits(),
    {
        let mut step = SyncStep { run, reports: Vec::new(), action: SyncAction::Open };
        let ghost s = StepView {
            syncer: self.deep_view(),
            run,
            reports: Seq::empty(),
            action: SyncAction::Open,
        };
        assert(step.with(*self) =~= s);
        let duration: u64 = elapsed_ms(run.stage_started, now);
        match event {
            SyncEvent::Begin => {
                step.run.started = now;
                step.run.stage_started = now;
                let path = self.path();
                let message = "Opening shared database at ".to_owned().concat(path.as_str());
                step.report(
                    SyncProgress::new(
                        "origin.connect",
                        SyncProgressState::Started,
                        message.as_str(),
                    ),
                );
            },
            SyncEvent::Opened(Ok(has_library)) => {
                let path = self.path();
                let message = "Opened shared database at ".to_owned().concat(path.as_str());
                step.report(
                    SyncProgress::new(
                        "origin.connect",
                        SyncProgressState::Succeeded,
                        message.as_str(),
                    ).with_duration(duration),
                );
                match run.purpose {
                    Purpose::Seed => self.begin_pull(&mut step, now),
                    _ => self.begin_push(&mut step, has_library, pending, now),
                }
            },
            SyncEvent::Opened(Err(e)) => self.fail_open(&mut step, e.as_str(), pending, now),
            SyncEvent::Counted(Ok(shows)) => {
                if shows == 0 {
                    step.action = SyncAction::MarkAllDirty;
                } else {
                    self.check_push(&mut step, pending, now);
                }
            },
            SyncEvent::Counted(Err(e)) => {
                let reason = "Failed to inspect shared database before push: ".to_owned().concat(
                    e.as_str(),
                );
                self.fail_push(&mut step, reason, run.pending, pending, now);
            },
            SyncEvent::MarkedDirty(Ok(_)) => {
                step.run.pending = pending;
                self.check_push(&mut step, pending, now);
            },
            SyncEvent::MarkedDirty(Err(e)) => {
                let reason = "Failed to prepare local library for origin seed: ".to_owned().concat(
                    e.as_str(),
                );
                self.fail_push(&mut step, reason, run.pending, pending, now);
            },
            SyncEvent::Pushed(Ok(_)) => {
                self.mark_online();
                let mut message = "Pushed ".to_owned();
                let count = text::spell_signed(run.pending.total());
                message.append(count.as_str());
                message.append(" local change(s)");
                step.report(
                    SyncProgress::new(
                        "origin.push",
                        SyncProgressState::Succeeded,
                        message.as_str(),
                    ).with_duration(duration).with_pending(run.pending),
                );
                self.end_push(&mut step, true, pending, now);
            },
            SyncEvent::Pushed(Err(e)) => {
                let mut reason = "Push failed; ".to_owned();
                let count = text::spell_signed(pending.total());
                reason.append(count.as_str());
                reason.append(" change(s) stay queued: ");
                reason.append(e.as_str());
                self.fail_push(&mut step, reason, pending, pending, now);
            },
            SyncEvent::ShowsLoaded(Ok((shows, episodes))) => {
                step.run.shows = shows;
                step.run.episodes = episodes;
                step.action = SyncAction::LoadQueues;
            },
            SyncEvent::ShowsLoaded(Err(e)) => {
                let reason = "Failed to load shows from shared DB: ".to_owned().concat(e.as_str());
                self.fail_pull(&mut step, reason, pending, now);
            },
            SyncEvent::QueuesLoaded(Ok(entries)) => {
                let mut message = "Read ".to_owned();
                let count = text::spell(run.shows as u64);
                message.append(count.as_str());
                message.append(" show(s), ");
                let count = text::spell(run.episodes as u64);
                message.append(count.as_str());
                message.append(" episode(s), and ");
                let count = text::spell(entries as u64);
                message.append(count.as_str());
                message.append(" queue entry(s)");
                step.report(
                    SyncProgress::new(
                        "origin.pull",
                        SyncProgressState::Succeeded,
                        message.as_str(),
                    ).with_duration(duration),
                );
                step.report(
                    SyncProgress::new(
                        "replica.merge",
                        SyncProgressState::Started,
                        "Merging shared changes into the local replica",
                    ),
                );
                step.run.stage_started = now;
                step.action = SyncAction::Merge;
            },
            SyncEvent::QueuesLoaded(Err(e)) => {
                let reason = "Failed to load queues from shared DB: ".to_owned().concat(e.as_str());
                self.fail_pull(&mut step, reason, pending, now);
            },
            SyncEvent::Merged => {
                self.mark_online();
                let mut message = "Merged ".to_owned();
                let count = text::spell(run.shows as u64);
                message.append(count.as_str());
                message.append(" show(s) into the local replica");
                step.report(
                    SyncProgress::new(
                        "replica.merge",
                        SyncProgressState::Succeeded,
                        message.as_str(),
                    ).with_duration(duration),
                );
                complete(&mut step, true, pending, now);
                assert(step.with(*self) == stepped(
                    old(self).deep_view(),
                    run,
                    event,
                    pending,
                    now,
                ));
            },
        }
        step
    }
}

// ── laws ────────────────────────────────────────────────────────────────

/// A run that is over leaves the connection online with no error where it
/// succeeded, and offline with the error where it failed.
pub proof fn law_outcome_sets_the_connection(
    syncer: SyncerView,
    run: SyncRun,
    event: SyncEvent,
    pending: PendingBreakdown,
    now: u64,
)
    ensures
        ({
            let s = stepped(syncer, run, event, pending, now);
            s.action matches SyncAction::Finish(ok) ==> {
                &&& s.syncer.online == ok
                &&& s.syncer.last_error is None == ok
            }
        }),
{
}

/// The origin is opened only as the first action of a run.
pub proof fn law_origin_is_opened_once(
    syncer: SyncerView,
    run: SyncRun,
    event: SyncEvent,
    pending: PendingBreakdown,
    now: u64,
)
    ensures
        (stepped(syncer, run, event, pending, now).action is Open) == (event is Begin),
{
}

/// The last report of a full run says how it ended.
pub proof fn law_full_run_reports_its_end(
    syncer: SyncerView,
    run: SyncRun,
    event: SyncEvent,
    pending: PendingBreakdown,
    now: u64,
)
    requires
        run.purpose is Sync,
    ensures
        ({
            let s = stepped(syncer, run, event, pending, now);
            s.action matches SyncAction::Finish(ok) ==> {
                &&& s.reports.len() > 0
                &&& s.reports.last().stage == "origin.complete"@
                &&& s.reports.last().state == if ok {
                    SyncProgressState::Succeeded
                } else {
                    SyncProgressState::Failed
                }
            }
        }),
{
}

/// A full run that cannot open the origin reports the push and the pull as
/// skipped before its end.
pub proof fn law_unopened_origin_skips_the_rest(
    syncer: SyncerView,
    run: SyncRun,
    e: String,
    pending: PendingBreakdown,
    now: u64,
)
    requires
        run.purpose is Sync,
    ensures
        ({
            let s = stepped(syncer, run, SyncEvent::Opened(Err(e)), pending, now);
            &&& s.action == SyncAction::Finish(false)
            &&& s.reports.len() == 4
            &&& s.reports[0].stage == "origin.connect"@ && s.reports[0].state is Failed
            &&& s.reports[1].stage == "origin.push"@ && s.reports[1].state is Skipped
            &&& s.reports[2].stage == "origin.pull"@ && s.reports[2].state is Skipped
            &&& s.reports[3].stage == "origin.complete"@ && s.reports[3].state is Failed
        }),
{
}

/// Nothing is pushed where nothing is pending, and nothing is pulled in a run
/// whose push failed.
pub proof fn law_push_gates(
    syncer: SyncerView,
    run: SyncRun,
    event: SyncEvent,
    pending: PendingBreakdown,
    now: u64,
)
    ensures
        ({
            let s = stepped(syncer, run, event, pending, now);
            &&& s.action is Push ==> s.run.pending.sum() != 0
            &&& (event matches SyncEvent::Pushed(Err(_))) ==> s.action == SyncAction::Finish(false)
        }),
{
}

// ── whole runs ──────────────────────────────────────────────────────────

/// What a step is given: what came of the last action, what is pending now, and
/// the time.
pub struct Given {
    pub event: SyncEvent,
    pub pending: PendingBreakdown,
    pub now: u64,
}

/// What some steps, one after the other, come to: the last state and action, and
/// all reports.
pub open spec fn after_steps(syncer: SyncerView, run: SyncRun, given: Seq<Given>) -> StepView
    decreases given.len(),
{
    if given.len() == 0 {
        StepView { syncer, run, reports: Seq::empty(), action: SyncAction::Open }
    } else {
        let s = after_steps(syncer, run, given.drop_last());
        let g = given.last();
        let t = stepped(s.syncer, s.run, g.event, g.pending, g.now);
        StepView { reports: s.reports + t.reports, ..t }
    }
}

/// Whether an event is what comes of an action. Nothing comes of the end.
pub open spec fn answers(action: SyncAction, event: SyncEvent) -> bool {
    match action {
        SyncAction::Open => event is Opened,
        SyncAction::CountShows => event is Counted,
        SyncAction::MarkAllDirty => event is MarkedDirty,
        SyncAction::Push => event is Pushed,
        SyncAction::LoadShows => event is ShowsLoaded,
        SyncAction::LoadQueues => event is QueuesLoaded,
        SyncAction::Merge => event is Merged,
        SyncAction::Finish(_) => false,
    }
}

/// Whether the steps are a run: the first begins it, and each other is given what
/// came of the action of the one before.
pub open spec fn is_run(syncer: SyncerView, run: SyncRun, given: Seq<Given>) -> bool
    decreases given.len(),
{
    if given.len() == 0 {
        false
    } else if given.len() == 1 {
        given[0].event is Begin
    } else {
        &&& is_run(syncer, run, given.drop_last())
        &&& answers(
            after_steps(syncer, run, given.drop_last()).action,
            given.last().event,
        )
    }
}

/// Whether an action failed.
pub open spec fn is_failure(event: SyncEvent) -> bool {
    match event {
        SyncEvent::Opened(Err(_)) => true,
        SyncEvent::Counted(Err(_)) => true,
        SyncEvent::MarkedDirty(Err(_)) => true,
        SyncEvent::Pushed(Err(_)) => true,
        SyncEvent::ShowsLoaded(Err(_)) => true,
        SyncEvent::QueuesLoaded(Err(_)) => true,
        _ => false,
    }
}

pub open spec fn any_failure(given: Seq<Given>) -> bool {
    exists|i: int| 0 <= i < given.len() && is_failure((#[trigger] given[i]).event)
}

spec fn stage_of(action: SyncAction) -> nat {
    match action {
        SyncAction::Open => 1,
        SyncAction::CountShows => 2,
        SyncAction::MarkAllDirty => 3,
        SyncAction::Push => 4,
        SyncAction::LoadShows => 5,
        SyncAction::LoadQueues => 6,
        SyncAction::Merge => 7,
        SyncAction::Finish(_) => 8,
    }
}

proof fn lemma_run(syncer: SyncerView, run: SyncRun, given: Seq<Given>)
    requires
        is_run(syncer, run, given),
    ensures
        ({
            let s = after_steps(syncer, run, given);
            &&& given.len() <= stage_of(s.action)
            &&& s.run.purpose == run.purpose
            &&& any_failure(given) == (s.action == SyncAction::Finish(false))
            &&& s.action matches SyncAction::Finish(ok) ==> {
                &&& s.syncer.online == ok
                &&& s.syncer.last_error is None == ok
            }
        }),
    decreases given.len(),
{
    let front = given.drop_last();
    let before = after_steps(syncer, run, front);
    let g = given.last();
    assert(given[given.len() - 1] == g);
    if given.len() > 1 {
        lemma_run(syncer, run, front);
        law_outcome_sets_the_connection(before.syncer, before.run, g.event, g.pending, g.now);
        if any_failure(given) {
            let i = choose|i: int| 0 <= i < given.len() && is_failure((#[trigger] given[i]).event);
            if i < front.len() {
                assert(is_failure(front[i].event));
            }
        }
        if any_failure(front) {
            let i = choose|i: int| 0 <= i < front.len() && is_failure((#[trigger] front[i]).event);
            assert(is_failure(given[i].event));
        }
    } else {
        assert(front.len() == 0);
    }
}

/// A whole run, of whatever purpose, is over after eight steps at most. It ends
/// well where no action failed and nowhere else, and leaves the connection online
/// with no error where it ended well, offline with the error where it did not,
/// whatever the connection was before.
pub proof fn law_run_ends_well_unless_an_action_fails(
    syncer: SyncerView,
    run: SyncRun,
    given: Seq<Given>,
)
    requires
        is_run(syncer, run, given),
    ensures
        ({
            let s = after_steps(syncer, run, given);
            &&& given.len() <= 8
            &&& given.len() == 8 ==> s.action is Finish
            &&& any_failure(given) ==> s.action is Finish
            &&& s.action matches SyncAction::Finish(ok) ==> {
                &&& ok == !any_failure(given)
                &&& s.syncer.online == ok
                &&& s.syncer.last_error is None == ok
            }
        }),
{
    lemma_run(syncer, run, given);
}

/// Whether the counts of what is pending are those of a library that only the run
/// changes: marking everything can only add, a push that the origin took leaves
/// nothing, and nothing else changes the count.
pub open spec fn only_the_run_changes(given: Seq<Given>) -> bool {
    forall|i: int|
        1 <= i < given.len() ==> match (#[trigger] given[i]).event {
            SyncEvent::MarkedDirty(_) => given[i].pending.sum() >= given[i - 1].pending.sum(),
            SyncEvent::Pushed(Ok(_)) => given[i].pending.sum() == 0,
            _ => given[i].pending.sum() == given[i - 1].pending.sum(),
        }
}

proof fn lemma_push_run(syncer: SyncerView, run: SyncRun, given: Seq<Given>)
    requires
        is_run(syncer, run, given),
        run.purpose is Push,
        only_the_run_changes(given),
    ensures
        ({
            let s = after_steps(syncer, run, given);
            let old_count = given[0].pending.sum();
            let count = given.last().pending.sum();
            &&& s.action is Open || s.action is CountShows || s.action is MarkAllDirty
                || s.action is Push || s.action is Finish
            &&& s.action is CountShows || s.action is MarkAllDirty ==> s.run.pending.sum() == count
            &&& s.action == SyncAction::Finish(true) ==> count == 0
            &&& s.action != SyncAction::Finish(true) ==> count >= old_count
        }),
    decreases given.len(),
{
    lemma_run(syncer, run, given);
    let front = given.drop_last();
    if given.len() > 1 {
        assert forall|i: int| 1 <= i < front.len() implies match (#[trigger] front[i]).event {
            SyncEvent::MarkedDirty(_) => front[i].pending.sum() >= front[i - 1].pending.sum(),
            SyncEvent::Pushed(Ok(_)) => front[i].pending.sum() == 0,
            _ => front[i].pending.sum() == front[i - 1].pending.sum(),
        } by {
            assert(given[i] == front[i] && given[i - 1] == front[i - 1]);
        }
        lemma_push_run(syncer, run, front);
        lemma_run(syncer, run, front);
        assert(given[given.len() - 1] == given.last());
        assert(given[given.len() - 2] == front.last());
        assert(front[0] == given[0]);
    } else {
        assert(front.len() == 0);
    }
}

/// A whole push, in a library that nothing else changes meanwhile, says whether
/// the connection is online. Where it is, there is no error and nothing is pending
/// any more, also where there was nothing to push and the connection was offline
/// before. Where it is not, there is an error, and at least as much is pending as
/// before. It is online where no action failed and nowhere else.
pub proof fn law_push_leaves_nothing_or_loses_nothing(
    syncer: SyncerView,
    run: SyncRun,
    given: Seq<Given>,
    ok: bool,
)
    requires
        run.purpose is Push,
        is_run(syncer, run, given),
        only_the_run_changes(given),
        after_steps(syncer, run, given).action == SyncAction::Finish(ok),
    ensures
        ({
            let after = after_steps(syncer, run, given).syncer;
            &&& ok == !any_failure(given)
            &&& after.online == ok
            &&& ok ==> after.last_error is None && given.last().pending.sum() == 0
            &&& !ok ==> after.last_error is Some && given.last().pending.sum()
                >= given[0].pending.sum()
        }),
{
    lemma_run(syncer, run, given);
    lemma_push_run(syncer, run, given);
}

} // verus!
