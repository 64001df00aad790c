//! The controls of a running round, and what the player's events change.
//!
//! An episode counts as watched the moment it plays to its natural end, or when
//! it is skipped. A file that fails to load, or one that is deferred, never does.
//! Every control says what it changed in the library and in the round; what the
//! player and the outer world have to do is returned as a list of effects, to be
//! performed in order.

use vstd::prelude::*;

use crate::clock;
use crate::filesync;
use crate::filesync::FileSyncReport;
use crate::queue;
use crate::replica;
use crate::replica::{Replica, Track};
use crate::rounds;
use crate::rounds::RoundEntry;
use crate::routes::WindowAction;
use crate::sorting;
use crate::stats;
use crate::stats::RemovedShow;
use crate::sync;
use crate::sync::SyncProgress;
use crate::tables;
use crate::tables::QueueRow;
use crate::text;

verus! {

// ── the end of a round ──────────────────────────────────────────────────

/// Why the player stopped waiting for the end of a round.
#[derive(Debug, Clone)]
pub struct PlayerShutdown(pub String);

/// Follows the player's place in its playlist. A round ends once, when the place
/// becomes negative after the round was playing.
#[derive(Debug, Clone)]
pub struct RoundEndTracker {
    active: bool,
    ended: u64,
}

impl RoundEndTracker {
    /// Whether a round is playing.
    pub closed spec fn is_active(self) -> bool {
        self.active
    }

    /// How many rounds have ended.
    pub closed spec fn count(self) -> u64 {
        self.ended
    }

    /// Takes a place in the playlist, negative when there is none. Says whether a
    /// round just ended.
    pub fn observe(&mut self, pos: i64) -> (r: bool)
        requires
            pos < 0 && old(self).is_active() ==> old(self).count() < u64::MAX,
        ensures
            r == (pos < 0 && old(self).is_active()),
            final(self).is_active() == (pos >= 0),
            final(self).count() == old(self).count() + if r {
                1int
            } else {
                0int
            },
    {
        if pos >= 0 {
            self.active = true;
            false
        } else if self.active {
            self.active = false;
            self.ended = self.ended + 1;
            true
        } else {
            false
        }
    }

    /// How many rounds have ended.
    pub fn ended_count(&self) -> (r: u64)
        ensures
            r == self.count(),
    {
        self.ended
    }
}

impl Default for RoundEndTracker {
    fn default() -> (r: RoundEndTracker)
        ensures
            !r.is_active(),
            r.count() == 0,
    {
        RoundEndTracker { active: false, ended: 0 }
    }
}

/// How often a round ends while the places are observed in turn.
pub open spec fn rounds_ended(active: bool, places: Seq<i64>) -> nat
    decreases places.len(),
{
    if places.len() == 0 {
        0
    } else {
        let was = if places.len() == 1 {
            active
        } else {
            places[places.len() - 2] >= 0
        };
        rounds_ended(active, places.drop_last()) + if was && places.last() < 0 {
            1nat
        } else {
            0nat
        }
    }
}

/// However the places go up and down, a round that plays and then runs out ends
/// exactly once, also where the player says again that nothing is left.
pub proof fn law_round_ends_once(places: Seq<i64>, idle: Seq<i64>)
    requires
        places.len() > 0,
        forall|i: int| 0 <= i < places.len() ==> #[trigger] places[i] >= 0,
        forall|i: int| 0 <= i < idle.len() ==> #[trigger] idle[i] < 0,
    ensures
        rounds_ended(false, places + idle) == if idle.len() > 0 {
            1nat
        } else {
            0nat
        },
        rounds_ended(false, idle) == 0,
    decreases places.len() + idle.len(),
{
    let all = places + idle;
    if idle.len() > 0 {
        let rest = idle.drop_last();
        law_round_ends_once(places, rest);
        assert(all.drop_last() =~= places + rest);
        assert(all[all.len() - 1] < 0);
        if idle.len() > 1 {
            assert(all[all.len() - 2] == idle[idle.len() - 2]);
        } else {
            assert(all[all.len() - 2] == places[places.len() - 1]);
        }
    } else {
        assert(all =~= places);
        if places.len() > 1 {
            law_round_ends_once(places.drop_last(), idle);
            assert(places.drop_last() + idle =~= places.drop_last());
        } else {
            assert(places.drop_last() =~= Seq::empty());
            assert(rounds_ended(false, places.drop_last()) == 0);
        }
        assert(places[places.len() - 1] >= 0);
    }
}

// ── outcomes and effects ────────────────────────────────────────────────

/// What came of a control.
#[derive(Debug, Clone, PartialEq, Eq)]
pub enum ControlOutcome {
    Applied { status: &'static str, message: String },
    Noop { status: &'static str, message: String },
}

#[verifier::ext_equal]
pub struct OutcomeView {
    pub ok: bool,
    pub status: Seq<char>,
    pub message: Seq<char>,
}

impl DeepView for ControlOutcome {
    type V = OutcomeView;

    open spec fn deep_view(&self) -> OutcomeView {
        match self {
            ControlOutcome::Applied { status, message } => OutcomeView {
                ok: true,
                status: status@,
                message: message@,
            },
            ControlOutcome::Noop { status, message } => OutcomeView {
                ok: false,
                status: status@,
                message: message@,
            },
        }
    }
}

impl ControlOutcome {
    pub fn applied(status: &'static str, message: &str) -> (r: ControlOutcome)
        ensures
            r.deep_view() == (OutcomeView { ok: true, status: status@, message: message@ }),
    {
        ControlOutcome::Applied { status, message: message.to_owned() }
    }

    pub fn noop(status: &'static str, message: &str) -> (r: ControlOutcome)
        ensures
            r.deep_view() == (OutcomeView { ok: false, status: status@, message: message@ }),
    {
        ControlOutcome::Noop { status, message: message.to_owned() }
    }

    pub fn ok(&self) -> (r: bool)
        ensures
            r == self.deep_view().ok,
    {
        match self {
            ControlOutcome::Applied { .. } => true,
            ControlOutcome::Noop { .. } => false,
        }
    }

    pub fn status(&self) -> (r: &'static str)
        ensures
            r@ == self.deep_view().status,
    {
        match self {
            ControlOutcome::Applied { status, .. } => *status,
            ControlOutcome::Noop { status, .. } => *status,
        }
    }

    pub fn message(&self) -> (r: &str)
        ensures
            r@ == self.deep_view().message,
    {
        match self {
            ControlOutcome::Applied { message, .. } => message.as_str(),
            ControlOutcome::Noop { message, .. } => message.as_str(),
        }
    }
}

/// What an advance brought.
#[derive(Debug, Clone)]
pub struct AdvanceResult {
    pub advanced_count: usize,
    pub removed_shows: Vec<RemovedShow>,
}

#[verifier::ext_equal]
pub struct AdvanceView {
    pub advanced_count: int,
    pub removed_shows: Seq<stats::RemovedShowView>,
}

impl DeepView for AdvanceResult {
    type V = AdvanceView;

    open spec fn deep_view(&self) -> AdvanceView {
        AdvanceView {
            advanced_count: self.advanced_count as int,
            removed_shows: self.removed_shows.deep_view(),
        }
    }
}

impl Default for AdvanceResult {
    fn default() -> (r: AdvanceResult)
        ensures
            r.deep_view() == (AdvanceView { advanced_count: 0, removed_shows: Seq::empty() }),
    {
        AdvanceResult { advanced_count: 0, removed_shows: Vec::new() }
    }
}

/// What is to be done outside.
#[derive(Debug, Clone)]
pub enum Effect {
    /// Put a file of the cache in the player's playlist.
    Play { path: Vec<String>, mode: &'static str },
    ClearPlaylist,
    Skip,
    Previous,
    /// Seek to a time, given by the bits of the double that holds it.
    SeekAbsolute(u64),
    SetSub(String),
    SetAudio(String),
    SetPlaylistPos(usize),
    SetPause(bool),
    TogglePause,
    ToggleFullscreen,
    /// Keep the window above the others, or do not.
    SetOnTop(bool),
    Window(WindowAction),
    RequestPush,
    RequestFullSync,
    Progress(SyncProgress),
    Status(&'static str, &'static str),
    /// The round is on, from this place.
    Round(usize),
    Advanced(AdvanceResult),
    Drained,
    Failed(&'static str),
    FilesChecked(FileSyncReport),
}

#[verifier::ext_equal]
pub enum EffectView {
    Play { path: Seq<Seq<char>>, mode: Seq<char> },
    ClearPlaylist,
    Skip,
    Previous,
    SeekAbsolute(u64),
    SetSub(Seq<char>),
    SetAudio(Seq<char>),
    SetPlaylistPos(nat),
    SetPause(bool),
    TogglePause,
    ToggleFullscreen,
    SetOnTop(bool),
    Window(WindowAction),
    RequestPush,
    RequestFullSync,
    Progress(sync::ProgressView),
    Status(Seq<char>, Seq<char>),
    Round(nat),
    Advanced(AdvanceView),
    Drained,
    Failed(Seq<char>),
    FilesChecked(filesync::ReportView),
}

impl DeepView for Effect {
    type V = EffectView;

    open spec fn deep_view(&self) -> EffectView {
        match self {
            Effect::Play { path, mode } => EffectView::Play {
                path: path.deep_view(),
                mode: mode@,
            },
            Effect::ClearPlaylist => EffectView::ClearPlaylist,
            Effect::Skip => EffectView::Skip,
            Effect::Previous => EffectView::Previous,
            Effect::SeekAbsolute(bits) => EffectView::SeekAbsolute(*bits),
            Effect::SetSub(s) => EffectView::SetSub(s@),
            Effect::SetAudio(s) => EffectView::SetAudio(s@),
            Effect::SetPlaylistPos(i) => EffectView::SetPlaylistPos(*i as nat),
            Effect::SetPause(b) => EffectView::SetPause(*b),
            Effect::TogglePause => EffectView::TogglePause,
            Effect::ToggleFullscreen => EffectView::ToggleFullscreen,
            Effect::SetOnTop(b) => EffectView::SetOnTop(*b),
            Effect::Window(a) => EffectView::Window(*a),
            Effect::RequestPush => EffectView::RequestPush,
            Effect::RequestFullSync => EffectView::RequestFullSync,
            Effect::Progress(p) => EffectView::Progress(p.deep_view()),
            Effect::Status(a, b) => EffectView::Status(a@, b@),
            Effect::Round(i) => EffectView::Round(*i as nat),
            Effect::Advanced(a) => EffectView::Advanced(a.deep_view()),
            Effect::Drained => EffectView::Drained,
            Effect::Failed(s) => EffectView::Failed(s@),
            Effect::FilesChecked(r) => EffectView::FilesChecked(r.deep_view()),
        }
    }
}

pub(crate) fn emit(effects: &mut Vec<Effect>, e: Effect)
    ensures
        final(effects).deep_view() == old(effects).deep_view().push(e.deep_view()),
{
    let ghost before = effects.deep_view();
    effects.push(e);
    assert(effects.deep_view() =~= before.push(e.deep_view()));
}

// ── the runner ──────────────────────────────────────────────────────────

/// The round that is on, and how far it has come.
#[derive(Debug, Clone)]
pub struct Runner {
    pub playlists: Vec<String>,
    pub round: Option<Vec<RoundEntry>>,
    pub pos: usize,
    pub deferred: Vec<String>,
    pub playing: Option<RoundEntry>,
    pub loaded_any: bool,
}

#[verifier::ext_equal]
pub struct RunnerView {
    pub playlists: Seq<Seq<char>>,
    pub round: Option<Seq<rounds::RoundEntryView>>,
    pub pos: nat,
    pub deferred: Seq<Seq<char>>,
    pub playing: Option<rounds::RoundEntryView>,
    pub loaded_any: bool,
}

impl DeepView for Runner {
    type V = RunnerView;

    open spec fn deep_view(&self) -> RunnerView {
        RunnerView {
            playlists: self.playlists.deep_view(),
            round: self.round.deep_view(),
            pos: self.pos as nat,
            deferred: self.deferred.deep_view(),
            playing: self.playing.deep_view(),
            loaded_any: self.loaded_any,
        }
    }
}

impl RunnerView {
    /// The entry that is selected.
    pub open spec fn selected(self) -> Option<rounds::RoundEntryView> {
        match self.round {
            Some(r) => if self.pos < r.len() {
                Some(r[self.pos as int])
            } else {
                None
            },
            None => None,
        }
    }
}

pub open spec fn nothing_selected() -> OutcomeView {
    OutcomeView {
        ok: false,
        status: "no_current_episode"@,
        message: "nothing is currently selected"@,
    }
}

fn no_current_episode() -> (r: ControlOutcome)
    ensures
        r.deep_view() == nothing_selected(),
{
    ControlOutcome::noop("no_current_episode", "nothing is currently selected")
}

/// The library with the state of every entry set.
pub open spec fn states_set(
    v: replica::LibraryView,
    entries: Seq<rounds::RoundEntryView>,
    state: Seq<char>,
    now: Seq<char>,
) -> replica::LibraryView
    decreases entries.len(),
{
    if entries.len() == 0 {
        v
    } else {
        queue::entry_in_state(
            states_set(v, entries.drop_last(), state, now),
            entries.last().episode_id,
            state,
            entries.last().playlist,
            now,
        )
    }
}

/// The show and episode of every entry.
pub open spec fn pairs_of(entries: Seq<rounds::RoundEntryView>) -> Seq<(Seq<char>, Seq<char>)> {
    Seq::new(entries.len(), |i: int| (entries[i].show_id, entries[i].episode_id))
}

/// The library after entries were watched.
pub open spec fn entries_watched(
    v: replica::LibraryView,
    entries: Seq<rounds::RoundEntryView>,
    now: Seq<char>,
    ids: Seq<Seq<char>>,
) -> replica::LibraryView {
    replica::advanced(states_set(v, entries, "watched"@, now), pairs_of(entries), now, ids)
}

/// What watching entries brings: how many episodes are newly watched, and the
/// farewell of every show that is finished by it.
pub open spec fn watch_result(
    v: replica::LibraryView,
    entries: Seq<rounds::RoundEntryView>,
    now: Seq<char>,
    ids: Seq<Seq<char>>,
) -> AdvanceView {
    let set = states_set(v, entries, "watched"@, now);
    let pairs = pairs_of(entries);
    let gone = replica::batches_drained(set, replica::batches_of(pairs), now, ids);
    let after = replica::advanced(set, pairs, now, ids);
    AdvanceView {
        advanced_count: replica::newly_watched(set, pairs, now, ids),
        removed_shows: Seq::new(gone.len(), |i: int| stats::farewell(after, gone[i])),
    }
}

/// Marks entries watched.
pub fn apply_advance(library: &mut Replica, entries: &[RoundEntry], now: &str, ids: &[String]) -> (r:
    AdvanceResult)
    requires
        entries@.len() <= ids@.len(),
    ensures
        final(library).deep_view() == entries_watched(
            old(library).deep_view(),
            entries.deep_view(),
            now@,
            ids.deep_view(),
        ),
        r.deep_view() == watch_result(
            old(library).deep_view(),
            entries.deep_view(),
            now@,
            ids.deep_view(),
        ),
{
    let ghost v = library.deep_view();
    let ghost views = entries.deep_view();
    let mut pairs: Vec<(String, String)> = Vec::new();
    let mut i: usize = 0;
    assert(views.take(0) =~= Seq::empty());
    assert(pairs.deep_view() =~= pairs_of(views).take(0));
    while i < entries.len()
        invariant
            i <= entries@.len(),
            views == entries.deep_view(),
            library.deep_view() == states_set(v, views.take(i as int), "watched"@, now@),
            pairs.deep_view() == pairs_of(views).take(i as int),
        decreases entries.len() - i,
    {
        proof {
            assert(views[i as int] == entries@[i as int].deep_view());
            assert(views.take(i + 1).drop_last() =~= views.take(i as int));
            assert(views.take(i + 1).last() == views[i as int]);
        }
        library.update_round_entry_state_at(
            entries[i].episode_id.as_str(),
            "watched",
            entries[i].playlist.as_str(),
            now,
        );
        let ghost before = pairs.deep_view();
        pairs.push((entries[i].show_id.clone(), entries[i].episode_id.clone()));
        assert(pairs.deep_view() =~= before.push(pairs_of(views)[i as int]));
        assert(pairs.deep_view() =~= pairs_of(views).take(i + 1));
        i = i + 1;
    }
    assert(views.take(i as int) =~= views);
    assert(pairs.deep_view() =~= pairs_of(views));
    let (advanced_count, gone) = library.advance_at(pairs.as_slice(), now, ids);
    let ghost gv = gone.deep_view();
    let ghost after = library.deep_view();
    let mut removed_shows: Vec<RemovedShow> = Vec::new();
    let mut k: usize = 0;
    while k < gone.len()
        invariant
            k <= gone@.len(),
            gv == gone.deep_view(),
            after == library.deep_view(),
            removed_shows@.len() == k,
            forall|j: int|
                0 <= j < k ==> (#[trigger] removed_shows@[j]).deep_view() == stats::farewell(
                    after,
                    gv[j],
                ),
        decreases gone.len() - k,
    {
        assert(gv[k as int] == gone@[k as int]@);
        let s = library.removed_show(gone[k].as_str());
        removed_shows.push(s);
        k = k + 1;
    }
    let r = AdvanceResult { advanced_count, removed_shows };
    assert(r.removed_shows.deep_view() =~= Seq::new(
        gv.len(),
        |j: int| stats::farewell(after, gv[j]),
    ));
    r
}

// ── controls ────────────────────────────────────────────────────────────

pub open spec fn skip_effects(r: RunnerView) -> Seq<EffectView> {
    match r.selected() {
        Some(_) => seq![EffectView::Skip, EffectView::RequestPush],
        None => seq![EffectView::Skip],
    }
}

pub open spec fn skip_outcome(r: RunnerView) -> OutcomeView {
    match r.selected() {
        Some(c) => OutcomeView {
            ok: true,
            status: "skipped"@,
            message: "skipped "@ + c.show_name,
        },
        None => nothing_selected(),
    }
}

/// The library after the selected entry was skipped.
pub open spec fn skipped(
    r: RunnerView,
    v: replica::LibraryView,
    now: Seq<char>,
    ids: Seq<Seq<char>>,
) -> replica::LibraryView {
    match r.selected() {
        Some(c) => entries_watched(v, seq![c], now, ids),
        None => v,
    }
}

pub open spec fn can_be_deferred(r: RunnerView, v: replica::LibraryView) -> bool {
    r.selected() matches Some(c) && replica::defers(v, c.show_id, c.episode_id)
}

pub open spec fn defer_outcome(r: RunnerView, v: replica::LibraryView) -> OutcomeView {
    match r.selected() {
        Some(c) => if replica::defers(v, c.show_id, c.episode_id) {
            OutcomeView { ok: true, status: "deferred"@, message: "deferred "@ + c.show_name }
        } else {
            OutcomeView {
                ok: false,
                status: "not_deferred"@,
                message: c.show_name + " could not be deferred"@,
            }
        },
        None => nothing_selected(),
    }
}

/// The library after the selected entry was deferred.
pub open spec fn deferred_in(r: RunnerView, v: replica::LibraryView, now: Seq<char>) -> replica::LibraryView {
    match r.selected() {
        Some(c) => if replica::defers(v, c.show_id, c.episode_id) {
            queue::entry_in_state(
                replica::deferred(v, c.show_id, c.episode_id, now),
                c.episode_id,
                "deferred"@,
                c.playlist,
                now,
            )
        } else {
            v
        },
        None => v,
    }
}

pub open spec fn with_deferred(ids: Seq<Seq<char>>, id: Seq<char>) -> Seq<Seq<char>> {
    if ids.contains(id) {
        ids
    } else {
        ids.push(id)
    }
}

/// The rows of the stored round that are of the playlists.
pub open spec fn rows_among(rows: Seq<tables::QueueRowView>, playlists: Seq<Seq<char>>) -> Seq<
    tables::QueueRowView,
>
    decreases rows.len(),
{
    if rows.len() == 0 {
        Seq::empty()
    } else if playlists.contains(rows.last().playlist) {
        rows_among(rows.drop_last(), playlists).push(rows.last())
    } else {
        rows_among(rows.drop_last(), playlists)
    }
}

/// The place of the first row of the show.
pub open spec fn place_of_show(rows: Seq<tables::QueueRowView>, show_id: Seq<char>) -> Option<nat>
    decreases rows.len(),
{
    if rows.len() == 0 {
        None
    } else {
        match place_of_show(rows.drop_last(), show_id) {
            Some(i) => Some(i),
            None => if rows.last().show_id == show_id {
                Some((rows.len() - 1) as nat)
            } else {
                None
            },
        }
    }
}

/// The stored round as the player has it.
pub open spec fn shown_rows(r: RunnerView, v: replica::LibraryView) -> Seq<tables::QueueRowView> {
    rows_among(sorting::in_order::<QueueRow>(v.queue), r.playlists)
}

/// The library after a show of the round was selected: what was playing is to be
/// played again.
pub open spec fn show_selected(
    r: RunnerView,
    v: replica::LibraryView,
    show_id: Seq<char>,
    now: Seq<char>,
) -> replica::LibraryView {
    let rows = shown_rows(r, v);
    match place_of_show(rows, show_id) {
        Some(i) => if r.pos < rows.len() && r.pos != i && rows[r.pos as int].state == "playing"@ {
            queue::entry_in_state(
                v,
                rows[r.pos as int].episode_id,
                "pending"@,
                rows[r.pos as int].playlist,
                now,
            )
        } else {
            v
        },
        None => v,
    }
}

pub open spec fn selection_outcome(
    r: RunnerView,
    v: replica::LibraryView,
    show_id: Seq<char>,
) -> OutcomeView {
    match place_of_show(shown_rows(r, v), show_id) {
        Some(_) => OutcomeView {
            ok: true,
            status: "playing_selected_show"@,
            message: "selected show "@ + show_id,
        },
        None => OutcomeView {
            ok: false,
            status: "show_not_in_round"@,
            message: "show "@ + show_id + " is not in the current round"@,
        },
    }
}

/// The library after a track was chosen for the selected entry.
pub open spec fn track_set(
    r: RunnerView,
    v: replica::LibraryView,
    track: Track,
    value: Seq<char>,
    now: Seq<char>,
) -> replica::LibraryView {
    match r.selected() {
        Some(c) => replica::track_chosen(v, c.episode_id, track, value, now),
        None => v,
    }
}

pub open spec fn track_outcome(r: RunnerView, track: Track) -> OutcomeView {
    match r.selected() {
        Some(_) => match track {
            Track::Subtitle => OutcomeView {
                ok: true,
                status: "subtitle_updated"@,
                message: "subtitle track updated"@,
            },
            Track::Audio => OutcomeView {
                ok: true,
                status: "audio_updated"@,
                message: "audio track updated"@,
            },
        },
        None => nothing_selected(),
    }
}

/// Whether a time, given by the bits of the double that holds it, is more than a
/// second in: the doubles above one have larger bits, up to those of infinity.
pub open spec fn past_start(bits: u64) -> bool {
    0x3FF0_0000_0000_0000 < bits <= 0x7FF0_0000_0000_0000
}

fn is_past_start(bits: u64) -> (r: bool)
    ensures
        r == past_start(bits),
{
    0x3FF0_0000_0000_0000 < bits && bits <= 0x7FF0_0000_0000_0000
}

/// What the player is told of an episode that opened: its track choices, and the
/// place to go on from where it is past the start.
pub open spec fn opening_effects(v: replica::LibraryView, episode_id: Seq<char>) -> Seq<EffectView> {
    let p = replica::preferences_of(v, episode_id);
    let subs = match p.subtitle_track {
        Some(s) => seq![EffectView::SetSub(s)],
        None => Seq::empty(),
    };
    let audio = match p.audio_track {
        Some(s) => seq![EffectView::SetAudio(s)],
        None => Seq::empty(),
    };
    let seek = match replica::resume_of(v, episode_id) {
        Some(bits) => if past_start(bits) {
            seq![EffectView::SeekAbsolute(bits)]
        } else {
            Seq::empty()
        },
        None => Seq::empty(),
    };
    subs + audio + seek
}

/// The library after the selected entry opened.
pub open spec fn opened(r: RunnerView, v: replica::LibraryView, now: Seq<char>) -> replica::LibraryView {
    match r.selected() {
        Some(c) => queue::entry_in_state(v, c.episode_id, "playing"@, c.playlist, now),
        None => v,
    }
}

/// The entry whose natural end counts: the one that is playing, unless it was
/// deferred.
pub open spec fn finished(r: RunnerView) -> Option<rounds::RoundEntryView> {
    match r.playing {
        Some(c) => if r.deferred.contains(c.episode_id) {
            None
        } else {
            Some(c)
        },
        None => None,
    }
}

/// The library after the playing entry came to its natural end.
pub open spec fn ended(
    r: RunnerView,
    v: replica::LibraryView,
    now: Seq<char>,
    ids: Seq<Seq<char>>,
) -> replica::LibraryView {
    match finished(r) {
        Some(c) => entries_watched(v, seq![c], now, ids),
        None => v,
    }
}

pub open spec fn end_effects(
    r: RunnerView,
    v: replica::LibraryView,
    now: Seq<char>,
    ids: Seq<Seq<char>>,
) -> Seq<EffectView> {
    match finished(r) {
        Some(c) => seq![EffectView::Advanced(watch_result(v, seq![c], now, ids))],
        None => Seq::empty(),
    }
}

/// The library after the place of the selected entry was saved.
pub open spec fn place_saved(
    r: RunnerView,
    v: replica::LibraryView,
    time_pos: Option<u64>,
    close: bool,
    now: Seq<char>,
) -> replica::LibraryView {
    match (r.selected(), time_pos) {
        (Some(c), Some(bits)) => if past_start(bits) {
            replica::resumed(v, c.episode_id, Some(bits), close, now)
        } else {
            v
        },
        _ => v,
    }
}

pub(crate) fn copy_entry(e: &RoundEntry) -> (r: RoundEntry)
    ensures
        r.deep_view() == e.deep_view(),
{
    RoundEntry {
        show_id: e.show_id.clone(),
        show_name: e.show_name.clone(),
        episode_id: e.episode_id.clone(),
        local_path: copy_path(&e.local_path),
        nas_absolute_path: e.nas_absolute_path.clone(),
        relative_path: e.relative_path.clone(),
        order_value: e.order_value,
        playlist: e.playlist.clone(),
        position: e.position,
    }
}

pub(crate) fn copy_path(path: &Vec<String>) -> (r: Vec<String>)
    ensures
        r.deep_view() == path.deep_view(),
{
    let mut out: Vec<String> = Vec::new();
    let mut i: usize = 0;
    while i < path.len()
        invariant
            i <= path@.len(),
            out@.len() == i,
            forall|j: int| 0 <= j < i ==> (#[trigger] out@[j])@ == path@[j]@,
        decreases path.len() - i,
    {
        out.push(path[i].clone());
        i = i + 1;
    }
    assert(out.deep_view() =~= path.deep_view());
    out
}

fn only(e: RoundEntry) -> (r: Vec<RoundEntry>)
    ensures
        r.deep_view() == seq![e.deep_view()],
        r@.len() == 1,
{
    let mut r: Vec<RoundEntry> = Vec::new();
    r.push(e);
    assert(r.deep_view() =~= seq![e.deep_view()]);
    r
}

fn shown(library: &Replica, playlists: &Vec<String>) -> (r: Vec<QueueRow>)
    ensures
        r.deep_view() == rows_among(
            sorting::in_order::<QueueRow>(library.deep_view().queue),
            playlists.deep_view(),
        ),
{
    let rows = library.get_round_queue();
    let ghost views = rows.deep_view();
    let ghost pls = playlists.deep_view();
    let mut out: Vec<QueueRow> = Vec::new();
    let mut i: usize = 0;
    assert(out.deep_view() =~= rows_among(views.take(0), pls));
    while i < rows.len()
        invariant
            i <= rows@.len(),
            views == rows.deep_view(),
            pls == playlists.deep_view(),
            out.deep_view() == rows_among(views.take(i as int), pls),
        decreases rows.len() - i,
    {
        proof {
            assert(views[i as int] == rows@[i as int].deep_view());
            assert(views.take(i + 1).drop_last() =~= views.take(i as int));
            assert(views.take(i + 1).last() == views[i as int]);
        }
        if text::is_among(rows[i].playlist.as_str(), playlists.as_slice()) {
            let ghost before = out.deep_view();
            let row = QueueRow {
                episode_id: rows[i].episode_id.clone(),
                show_id: rows[i].show_id.clone(),
                play_order: rows[i].play_order,
                state: rows[i].state.clone(),
                playlist: rows[i].playlist.clone(),
                updated_at: rows[i].updated_at.clone(),
                dirty: rows[i].dirty,
            };
            out.push(row);
            assert(out.deep_view() =~= before.push(views[i as int]));
        }
        i = i + 1;
    }
    assert(views.take(i as int) =~= views);
    out
}

fn find_show(rows: &Vec<QueueRow>, show_id: &str) -> (r: Option<usize>)
    ensures
        match (r, place_of_show(rows.deep_view(), show_id@)) {
            (Some(i), Some(j)) => i == j && i < rows@.len(),
            (None, None) => true,
            _ => false,
        },
{
    let ghost views = rows.deep_view();
    let mut found: Option<usize> = None;
    let mut i: usize = 0;
    while i < rows.len()
        invariant
            i <= rows@.len(),
            views == rows.deep_view(),
            match (found, place_of_show(views.take(i as int), show_id@)) {
                (Some(a), Some(b)) => a == b && a < i,
                (None, None) => true,
                _ => false,
            },
        decreases rows.len() - i,
    {
        proof {
            assert(views[i as int] == rows@[i as int].deep_view());
            assert(views.take(i + 1).drop_last() =~= views.take(i as int));
            assert(views.take(i + 1).last() == views[i as int]);
        }
        if found.is_none() && text::same_text(rows[i].show_id.as_str(), show_id) {
            found = Some(i);
        }
        i = i + 1;
    }
    assert(views.take(i as int) =~= views);
    found
}

impl Runner {
    /// A runner for some playlists, with no round on.
    pub fn new(playlists: Vec<String>) -> (r: Runner)
        ensures
            r.deep_view() == (RunnerView {
                playlists: playlists.deep_view(),
                round: None,
                pos: 0,
                deferred: Seq::empty(),
                playing: None,
                loaded_any: false,
            }),
    {
        let deferred: Vec<String> = Vec::new();
        assert(deferred.deep_view() =~= Seq::empty());
        Runner { playlists, round: None, pos: 0, deferred, playing: None, loaded_any: false }
    }

    /// Selects a place of the round.
    pub fn set_pos(&mut self, i: usize)
        ensures
            final(self).deep_view() == (RunnerView { pos: i as nat, ..old(self).deep_view() }),
    {
        self.pos = i;
    }

    /// The selected entry.
    pub fn current(&self) -> (r: Option<RoundEntry>)
        ensures
            r.deep_view() == self.deep_view().selected(),
    {
        match &self.round {
            Some(r) => {
                if self.pos < r.len() {
                    assert(r.deep_view()[self.pos as int] == r@[self.pos as int].deep_view());
                    Some(copy_entry(&r[self.pos]))
                } else {
                    None
                }
            },
            None => None,
        }
    }

    /// Skips the selected entry: the player goes on, and the episode is watched.
    pub fn skip_at(&self, library: &mut Replica, now: &str, ids: &[String]) -> (r: (
        ControlOutcome,
        Vec<Effect>,
    ))
        requires
            ids@.len() >= 1,
        ensures
            final(library).deep_view() == skipped(
                self.deep_view(),
                old(library).deep_view(),
                now@,
                ids.deep_view(),
            ),
            r.0.deep_view() == skip_outcome(self.deep_view()),
            r.1.deep_view() == skip_effects(self.deep_view()),
    {
        let mut effects: Vec<Effect> = Vec::new();
        assert(effects.deep_view() =~= Seq::empty());
        let current = self.current();
        emit(&mut effects, Effect::Skip);
        match current {
            Some(c) => {
                let message = "skipped ".to_owned().concat(c.show_name.as_str());
                let entries = only(c);
                apply_advance(library, entries.as_slice(), now, ids);
                emit(&mut effects, Effect::RequestPush);
                assert(effects.deep_view() =~= skip_effects(self.deep_view()));
                (ControlOutcome::applied("skipped", message.as_str()), effects)
            },
            None => {
                assert(effects.deep_view() =~= skip_effects(self.deep_view()));
                (no_current_episode(), effects)
            },
        }
    }

    /// Skips the selected entry at the time of the call.
    pub fn skip(&self, library: &mut Replica) -> (r: (ControlOutcome, Vec<Effect>))
        ensures
            exists|now: Seq<char>, ids: Seq<Seq<char>>|
                ids.len() == 1 && final(library).deep_view() == #[trigger] skipped(
                    self.deep_view(),
                    old(library).deep_view(),
                    now,
                    ids,
                ),
            r.0.deep_view() == skip_outcome(self.deep_view()),
            r.1.deep_view() == skip_effects(self.deep_view()),
    {
        let now = clock::now();
        let ids = clock::new_ids(1);
        self.skip_at(library, now.as_str(), ids.as_slice())
    }

    /// Steps back to the entry before. Nothing is watched by it.
    pub fn previous(&self) -> (r: (ControlOutcome, Vec<Effect>))
        ensures
            r.0.deep_view() == match self.deep_view().selected() {
                Some(_) => OutcomeView {
                    ok: true,
                    status: "previous"@,
                    message: "stepped back"@,
                },
                None => nothing_selected(),
            },
            r.1.deep_view() == match self.deep_view().selected() {
                Some(_) => seq![EffectView::Previous],
                None => Seq::empty(),
            },
    {
        let mut effects: Vec<Effect> = Vec::new();
        assert(effects.deep_view() =~= Seq::empty());
        match self.current() {
            Some(_) => {
                emit(&mut effects, Effect::Previous);
                assert(effects.deep_view() =~= seq![EffectView::Previous]);
                (ControlOutcome::applied("previous", "stepped back"), effects)
            },
            None => (no_current_episode(), effects),
        }
    }

    /// Has the round read anew from the stored one: the player's playlist is
    /// cleared, which ends the wait for the round.
    pub fn reload_round(&self) -> (r: (ControlOutcome, Vec<Effect>))
        ensures
            r.0.deep_view() == (OutcomeView {
                ok: true,
                status: "round_reload_requested"@,
                message: "reloading round"@,
            }),
            r.1.deep_view() == seq![EffectView::ClearPlaylist],
    {
        let mut effects: Vec<Effect> = Vec::new();
        assert(effects.deep_view() =~= Seq::empty());
        emit(&mut effects, Effect::ClearPlaylist);
        assert(effects.deep_view() =~= seq![EffectView::ClearPlaylist]);
        (ControlOutcome::applied("round_reload_requested", "reloading round"), effects)
    }

    /// Whether deferring the selected entry leaves a position for it behind all
    /// others of its show.
    pub fn has_room_behind(&self, library: &Replica) -> (r: bool)
        ensures
            r == match self.deep_view().selected() {
                Some(c) => replica::has_room_behind(library.deep_view(), c.show_id),
                None => true,
            },
    {
        match self.current() {
            Some(c) => library.has_room_behind(c.show_id.as_str()),
            None => true,
        }
    }

    /// Defers the selected entry: it goes behind all others of its show without
    /// being watched, and the player goes on.
    pub fn defer_at(&mut self, library: &mut Replica, now: &str) -> (r: (
        ControlOutcome,
        Vec<Effect>,
    ))
        requires
            old(self).deep_view().selected() matches Some(c) ==> replica::has_room_behind(
                old(library).deep_view(),
                c.show_id,
            ),
        ensures
            final(library).deep_view() == deferred_in(
                old(self).deep_view(),
                old(library).deep_view(),
                now@,
            ),
            final(self).deep_view() == if can_be_deferred(
                old(self).deep_view(),
                old(library).deep_view(),
            ) {
                RunnerView {
                    deferred: with_deferred(
                        old(self).deep_view().deferred,
                        old(self).deep_view().selected()->0.episode_id,
                    ),
                    ..old(self).deep_view()
                }
            } else {
                old(self).deep_view()
            },
            r.0.deep_view() == defer_outcome(old(self).deep_view(), old(library).deep_view()),
            r.1.deep_view() == if can_be_deferred(
                old(self).deep_view(),
                old(library).deep_view(),
            ) {
                seq![EffectView::RequestPush, EffectView::Skip]
            } else {
                Seq::empty()
            },
    {
        let mut effects: Vec<Effect> = Vec::new();
        assert(effects.deep_view() =~= Seq::empty());
        match self.current() {
            Some(c) => {
                if !library.defer_at(c.show_id.as_str(), c.episode_id.as_str(), now) {
                    let message = c.show_name.clone().concat(" could not be deferred");
                    proof {
                        crate::read_back::law_defer_only_moves_one_row(
                            old(library).deep_view(),
                            c.show_id@,
                            c.episode_id@,
                            now@,
                        );
                    }
                    return (ControlOutcome::noop("not_deferred", message.as_str()), effects);
                }
                if !text::is_among(c.episode_id.as_str(), self.deferred.as_slice()) {
                    let ghost before = self.deferred.deep_view();
                    self.deferred.push(c.episode_id.clone());
                    assert(self.deferred.deep_view() =~= before.push(c.episode_id@));
                }
                library.update_round_entry_state_at(
                    c.episode_id.as_str(),
                    "deferred",
                    c.playlist.as_str(),
                    now,
                );
                emit(&mut effects, Effect::RequestPush);
                emit(&mut effects, Effect::Skip);
                assert(effects.deep_view() =~= seq![EffectView::RequestPush, EffectView::Skip]);
                let message = "deferred ".to_owned().concat(c.show_name.as_str());
                (ControlOutcome::applied("deferred", message.as_str()), effects)
            },
            None => (no_current_episode(), effects),
        }
    }

    /// Defers the selected entry at the time of the call.
    pub fn defer(&mut self, library: &mut Replica) -> (r: (ControlOutcome, Vec<Effect>))
        requires
            old(self).deep_view().selected() matches Some(c) ==> replica::has_room_behind(
                old(library).deep_view(),
                c.show_id,
            ),
        ensures
            exists|now: Seq<char>|
                final(library).deep_view() == #[trigger] deferred_in(
                    old(self).deep_view(),
                    old(library).deep_view(),
                    now,
                ),
            final(self).deep_view() == if can_be_deferred(
                old(self).deep_view(),
                old(library).deep_view(),
            ) {
                RunnerView {
                    deferred: with_deferred(
                        old(self).deep_view().deferred,
                        old(self).deep_view().selected()->0.episode_id,
                    ),
                    ..old(self).deep_view()
                }
            } else {
                old(self).deep_view()
            },
            r.0.deep_view() == defer_outcome(old(self).deep_view(), old(library).deep_view()),
            r.1.deep_view() == if can_be_deferred(
                old(self).deep_view(),
                old(library).deep_view(),
            ) {
                seq![EffectView::RequestPush, EffectView::Skip]
            } else {
                Seq::empty()
            },
    {
        let now = clock::now();
        self.defer_at(library, now.as_str())
    }

    /// Goes to a show of the round. What was playing is to be played again.
    pub fn play_show_at(&mut self, library: &mut Replica, show_id: &str, now: &str) -> (r: (
        ControlOutcome,
        Vec<Effect>,
    ))
        ensures
            final(library).deep_view() == show_selected(
                old(self).deep_view(),
                old(library).deep_view(),
                show_id@,
                now@,
            ),
            r.0.deep_view() == selection_outcome(
                old(self).deep_view(),
                old(library).deep_view(),
                show_id@,
            ),
            match place_of_show(
                shown_rows(old(self).deep_view(), old(library).deep_view()),
                show_id@,
            ) {
                Some(i) => {
                    &&& final(self).deep_view() == (RunnerView { pos: i, ..old(self).deep_view() })
                    &&& r.1.deep_view() == seq![
                        EffectView::SetPlaylistPos(i),
                        EffectView::RequestPush,
                    ]
                },
                None => *final(self) == *old(self) && r.1.deep_view() == Seq::<EffectView>::empty(),
            },
    {
        let mut effects: Vec<Effect> = Vec::new();
        assert(effects.deep_view() =~= Seq::empty());
        let rows = shown(library, &self.playlists);
        match find_show(&rows, show_id) {
            Some(i) => {
                if self.pos < rows.len() && self.pos != i {
                    let ghost views = rows.deep_view();
                    assert(views[self.pos as int] == rows@[self.pos as int].deep_view());
                    if text::same_text(rows[self.pos].state.as_str(), "playing") {
                        library.update_round_entry_state_at(
                            rows[self.pos].episode_id.as_str(),
                            "pending",
                            rows[self.pos].playlist.as_str(),
                            now,
                        );
                    }
                }
                self.pos = i;
                emit(&mut effects, Effect::SetPlaylistPos(i));
                emit(&mut effects, Effect::RequestPush);
                assert(effects.deep_view() =~= seq![
                    EffectView::SetPlaylistPos(i as nat),
                    EffectView::RequestPush,
                ]);
                let message = "selected show ".to_owned().concat(show_id);
                (ControlOutcome::applied("playing_selected_show", message.as_str()), effects)
            },
            None => {
                let mut message = "show ".to_owned();
                message.append(show_id);
                message.append(" is not in the current round");
                (ControlOutcome::noop("show_not_in_round", message.as_str()), effects)
            },
        }
    }

    /// Goes to a show of the round at the time of the call.
    pub fn play_show(&mut self, library: &mut Replica, show_id: &str) -> (r: (
        ControlOutcome,
        Vec<Effect>,
    ))
        ensures
            exists|now: Seq<char>|
                final(library).deep_view() == #[trigger] show_selected(
                    old(self).deep_view(),
                    old(library).deep_view(),
                    show_id@,
                    now,
                ),
            r.0.deep_view() == selection_outcome(
                old(self).deep_view(),
                old(library).deep_view(),
                show_id@,
            ),
            match place_of_show(
                shown_rows(old(self).deep_view(), old(library).deep_view()),
                show_id@,
            ) {
                Some(i) => {
                    &&& final(self).deep_view() == (RunnerView { pos: i, ..old(self).deep_view() })
                    &&& r.1.deep_view() == seq![
                        EffectView::SetPlaylistPos(i),
                        EffectView::RequestPush,
                    ]
                },
                None => *final(self) == *old(self) && r.1.deep_view() == Seq::<EffectView>::empty(),
            },
    {
        let now = clock::now();
        self.play_show_at(library, show_id, now.as_str())
    }

    /// Chooses a subtitle track, for now and for the next time that the selected
    /// episode plays.
    pub fn set_current_subtitle_track_at(&self, library: &mut Replica, sid: &str, now: &str) -> (r:
        (ControlOutcome, Vec<Effect>))
        ensures
            final(library).deep_view() == track_set(
                self.deep_view(),
                old(library).deep_view(),
                Track::Subtitle,
                sid@,
                now@,
            ),
            r.0.deep_view() == track_outcome(self.deep_view(), Track::Subtitle),
            r.1.deep_view() == seq![EffectView::SetSub(sid@)],
    {
        let mut effects: Vec<Effect> = Vec::new();
        assert(effects.deep_view() =~= Seq::empty());
        emit(&mut effects, Effect::SetSub(sid.to_owned()));
        assert(effects.deep_view() =~= seq![EffectView::SetSub(sid@)]);
        match self.current() {
            Some(c) => {
                library.set_playback_preference(c.episode_id.as_str(), Track::Subtitle, sid, now);
                (ControlOutcome::applied("subtitle_updated", "subtitle track updated"), effects)
            },
            None => (no_current_episode(), effects),
        }
    }

    /// Chooses a subtitle track at the time of the call.
    pub fn set_current_subtitle_track(&self, library: &mut Replica, sid: &str) -> (r: (
        ControlOutcome,
        Vec<Effect>,
    ))
        ensures
            exists|now: Seq<char>|
                final(library).deep_view() == #[trigger] track_set(
                    self.deep_view(),
                    old(library).deep_view(),
                    Track::Subtitle,
                    sid@,
                    now,
                ),
            r.0.deep_view() == track_outcome(self.deep_view(), Track::Subtitle),
            r.1.deep_view() == seq![EffectView::SetSub(sid@)],
    {
        let now = clock::now();
        self.set_current_subtitle_track_at(library, sid, now.as_str())
    }

    /// Chooses an audio track, for now and for the next time that the selected
    /// episode plays.
    pub fn set_current_audio_track_at(&self, library: &mut Replica, aid: &str, now: &str) -> (r:
        (ControlOutcome, Vec<Effect>))
        ensures
            final(library).deep_view() == track_set(
                self.deep_view(),
                old(library).deep_view(),
                Track::Audio,
                aid@,
                now@,
            ),
            r.0.deep_view() == track_outcome(self.deep_view(), Track::Audio),
            r.1.deep_view() == seq![EffectView::SetAudio(aid@)],
    {
        let mut effects: Vec<Effect> = Vec::new();
        assert(effects.deep_view() =~= Seq::empty());
        emit(&mut effects, Effect::SetAudio(aid.to_owned()));
        assert(effects.deep_view() =~= seq![EffectView::SetAudio(aid@)]);
        match self.current() {
            Some(c) => {
                library.set_playback_preference(c.episode_id.as_str(), Track::Audio, aid, now);
                (ControlOutcome::applied("audio_updated", "audio track updated"), effects)
            },
            None => (no_current_episode(), effects),
        }
    }

    /// Chooses an audio track at the time of the call.
    pub fn set_current_audio_track(&self, library: &mut Replica, aid: &str) -> (r: (
        ControlOutcome,
        Vec<Effect>,
    ))
        ensures
            exists|now: Seq<char>|
                final(library).deep_view() == #[trigger] track_set(
                    self.deep_view(),
                    old(library).deep_view(),
                    Track::Audio,
                    aid@,
                    now,
                ),
            r.0.deep_view() == track_outcome(self.deep_view(), Track::Audio),
            r.1.deep_view() == seq![EffectView::SetAudio(aid@)],
    {
        let now = clock::now();
        self.set_current_audio_track_at(library, aid, now.as_str())
    }

    // ── events of the player ────────────────────────────────────────────

    /// A file of the round opened: the selected entry is playing.
    pub fn on_file_loaded_at(&mut self, library: &mut Replica, now: &str) -> (r: Vec<Effect>)
        ensures
            final(library).deep_view() == opened(
                old(self).deep_view(),
                old(library).deep_view(),
                now@,
            ),
            match old(self).deep_view().selected() {
                Some(c) => {
                    &&& final(self).deep_view() == (RunnerView {
                        playing: Some(c),
                        loaded_any: true,
                        ..old(self).deep_view()
                    })
                    &&& r.deep_view() == opening_effects(final(library).deep_view(), c.episode_id)
                },
                None => *final(self) == *old(self) && r.deep_view() == Seq::<EffectView>::empty(),
            },
    {
        let mut effects: Vec<Effect> = Vec::new();
        assert(effects.deep_view() =~= Seq::empty());
        match self.current() {
            Some(c) => {
                library.update_round_entry_state_at(
                    c.episode_id.as_str(),
                    "playing",
                    c.playlist.as_str(),
                    now,
                );
                let prefs = library.playback_preferences(c.episode_id.as_str());
                match prefs.subtitle_track {
                    Some(sid) => emit(&mut effects, Effect::SetSub(sid)),
                    None => {},
                }
                match prefs.audio_track {
                    Some(aid) => emit(&mut effects, Effect::SetAudio(aid)),
                    None => {},
                }
                match library.resume_pos(c.episode_id.as_str()) {
                    Some(bits) => {
                        if is_past_start(bits) {
                            emit(&mut effects, Effect::SeekAbsolute(bits));
                        }
                    },
                    None => {},
                }
                assert(effects.deep_view() =~= opening_effects(
                    library.deep_view(),
                    c.episode_id@,
                ));
                self.playing = Some(c);
                self.loaded_any = true;
                effects
            },
            None => effects,
        }
    }

    /// A file of the round opened just now.
    pub fn on_file_loaded(&mut self, library: &mut Replica) -> (r: Vec<Effect>)
        ensures
            exists|now: Seq<char>|
                final(library).deep_view() == #[trigger] opened(
                    old(self).deep_view(),
                    old(library).deep_view(),
                    now,
                ),
            match old(self).deep_view().selected() {
                Some(c) => {
                    &&& final(self).deep_view() == (RunnerView {
                        playing: Some(c),
                        loaded_any: true,
                        ..old(self).deep_view()
                    })
                    &&& r.deep_view() == opening_effects(final(library).deep_view(), c.episode_id)
                },
                None => *final(self) == *old(self) && r.deep_view() == Seq::<EffectView>::empty(),
            },
    {
        let now = clock::now();
        self.on_file_loaded_at(library, now.as_str())
    }

    /// The playing entry came to its natural end: it is watched, unless it was
    /// deferred.
    pub fn on_natural_end_at(&mut self, library: &mut Replica, now: &str, ids: &[String]) -> (r: Vec<
        Effect,
    >)
        requires
            ids@.len() >= 1,
        ensures
            final(library).deep_view() == ended(
                old(self).deep_view(),
                old(library).deep_view(),
                now@,
                ids.deep_view(),
            ),
            final(self).deep_view() == (RunnerView { playing: None, ..old(self).deep_view() }),
            r.deep_view() == end_effects(
                old(self).deep_view(),
                old(library).deep_view(),
                now@,
                ids.deep_view(),
            ),
    {
        let mut effects: Vec<Effect> = Vec::new();
        assert(effects.deep_view() =~= Seq::empty());
        match self.playing.take() {
            Some(c) => {
                if !text::is_among(c.episode_id.as_str(), self.deferred.as_slice()) {
                    let entries = only(c);
                    let result = apply_advance(library, entries.as_slice(), now, ids);
                    emit(&mut effects, Effect::Advanced(result));
                    assert(effects.deep_view() =~= seq![
                        EffectView::Advanced(result.deep_view()),
                    ]);
                }
            },
            None => {},
        }
        effects
    }

    /// The playing entry came to its natural end just now.
    pub fn on_natural_end(&mut self, library: &mut Replica) -> (r: Vec<Effect>)
        ensures
            exists|now: Seq<char>, ids: Seq<Seq<char>>|
                #![trigger ended(old(self).deep_view(), old(library).deep_view(), now, ids)]
                ids.len() == 1 && final(library).deep_view() == ended(
                    old(self).deep_view(),
                    old(library).deep_view(),
                    now,
                    ids,
                ) && r.deep_view() == end_effects(
                    old(self).deep_view(),
                    old(library).deep_view(),
                    now,
                    ids,
                ),
            final(self).deep_view() == (RunnerView { playing: None, ..old(self).deep_view() }),
    {
        let now = clock::now();
        let ids = clock::new_ids(1);
        let ghost idv = ids.deep_view();
        let ghost rv = self.deep_view();
        let ghost lv = library.deep_view();
        let r = self.on_natural_end_at(library, now.as_str(), ids.as_slice());
        assert(library.deep_view() == ended(rv, lv, now@, idv));
        r
    }

    /// Saves where the selected entry is. `time_pos` is the bits of the double
    /// that holds the player's time, and `close` says whether that is within the
    /// tolerance of what is stored.
    pub fn save_resume_at(
        &self,
        library: &mut Replica,
        time_pos: Option<u64>,
        close: bool,
        now: &str,
    )
        ensures
            final(library).deep_view() == place_saved(
                self.deep_view(),
                old(library).deep_view(),
                time_pos,
                close,
                now@,
            ),
    {
        match (self.current(), time_pos) {
            (Some(c), Some(bits)) => {
                if is_past_start(bits) {
                    library.set_resume_at(c.episode_id.as_str(), Some(bits), close, now);
                }
            },
            _ => {},
        }
    }

    /// Saves where the selected entry is at the time of the call.
    pub fn save_resume(&self, library: &mut Replica, time_pos: Option<u64>, close: bool)
        ensures
            exists|now: Seq<char>|
                final(library).deep_view() == #[trigger] place_saved(
                    self.deep_view(),
                    old(library).deep_view(),
                    time_pos,
                    close,
                    now,
                ),
    {
        let now = clock::now();
        self.save_resume_at(library, time_pos, close, now.as_str());
    }
}

// ── requests to the sync worker ─────────────────────────────────────────

/// What the sync worker does on one wake.
#[derive(Debug, Clone, Copy, PartialEq, Eq, Structural)]
pub enum SyncWork {
    Sync,
    Push,
}

/// What the sync worker was asked for since it last looked.
#[derive(Debug, Clone, Copy, PartialEq, Eq, Structural)]
pub struct SyncRequests {
    pub push: bool,
    pub sync: bool,
}

impl SyncRequests {
    /// Nothing was asked for.
    pub fn new() -> (r: SyncRequests)
        ensures
            !r.push && !r.sync,
    {
        SyncRequests { push: false, sync: false }
    }

    /// Adds a request. Says whether the worker has to be woken: it was not asked
    /// for anything before.
    pub fn request_sync_work(&mut self, work: SyncWork) -> (r: bool)
        ensures
            r == (!old(self).push && !old(self).sync),
            final(self).push == (old(self).push || work is Push),
            final(self).sync == (old(self).sync || work is Sync),
    {
        let idle = !self.push && !self.sync;
        match work {
            SyncWork::Sync => {
                self.sync = true;
            },
            SyncWork::Push => {
                self.push = true;
            },
        }
        idle
    }

    /// Takes the requests: a full sync covers a push.
    pub fn take(&mut self) -> (r: Option<SyncWork>)
        ensures
            !final(self).push && !final(self).sync,
            r == if old(self).sync {
                Some(SyncWork::Sync)
            } else if old(self).push {
                Some(SyncWork::Push)
            } else {
                None
            },
    {
        let r = if self.sync {
            Some(SyncWork::Sync)
        } else if self.push {
            Some(SyncWork::Push)
        } else {
            None
        };
        self.push = false;
        self.sync = false;
        r
    }
}

} // verus!
