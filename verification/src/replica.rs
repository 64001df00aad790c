//! The shows library: every table of the shared database, and every change that
//! the player makes to it.
//!
//! The engine holds the rules over one show; this layer finds the rows, runs the
//! engine and writes the result back. One call is one transaction: the caller
//! loads the tables, makes the call and stores the tables again.

use vstd::prelude::*;

use crate::clock;
use crate::engine;
use crate::engine::{Episode, HistoryRow, Show};
use crate::sorting;
use crate::tables;
use crate::tables::{
    EpisodeRow, HistoryEntry, Keyed, PreferenceRow, QueueRow, QueueStamp, ShowRow,
};
use crate::text;

verus! {

/// The track choices that were made for one episode.
#[derive(Debug, Clone, Default, PartialEq, Eq)]
pub struct EpisodePlaybackPreferences {
    pub subtitle_track: Option<String>,
    pub audio_track: Option<String>,
}

#[verifier::ext_equal]
pub struct PreferencesView {
    pub subtitle_track: Option<Seq<char>>,
    pub audio_track: Option<Seq<char>>,
}

impl DeepView for EpisodePlaybackPreferences {
    type V = PreferencesView;

    open spec fn deep_view(&self) -> PreferencesView {
        PreferencesView {
            subtitle_track: self.subtitle_track.deep_view(),
            audio_track: self.audio_track.deep_view(),
        }
    }
}

/// The tables of the library. `revision` counts the rows that were ever written,
/// so that an open player notices what another one changed.
#[derive(Debug, Clone)]
pub struct Replica {
    pub shows: Vec<ShowRow>,
    pub episodes: Vec<EpisodeRow>,
    pub history: Vec<HistoryEntry>,
    pub queue: Vec<QueueRow>,
    pub preferences: Vec<PreferenceRow>,
    pub volume: Option<String>,
    pub queue_stamps: Vec<QueueStamp>,
    pub revision: i64,
}

#[verifier::ext_equal]
pub struct LibraryView {
    pub shows: Seq<tables::ShowRowView>,
    pub episodes: Seq<tables::EpisodeRowView>,
    pub history: Seq<tables::HistoryEntryView>,
    pub queue: Seq<tables::QueueRowView>,
    pub preferences: Seq<tables::PreferenceRowView>,
    pub volume: Option<Seq<char>>,
    pub queue_stamps: Seq<tables::QueueStampView>,
    pub revision: i64,
}

impl DeepView for Replica {
    type V = LibraryView;

    open spec fn deep_view(&self) -> LibraryView {
        LibraryView {
            shows: self.shows.deep_view(),
            episodes: self.episodes.deep_view(),
            history: self.history.deep_view(),
            queue: self.queue.deep_view(),
            preferences: self.preferences.deep_view(),
            volume: self.volume.deep_view(),
            queue_stamps: self.queue_stamps.deep_view(),
            revision: self.revision,
        }
    }
}

impl LibraryView {
    /// Every table has its primary key.
    pub open spec fn well_formed(self) -> bool {
        &&& tables::distinct::<ShowRow>(self.shows)
        &&& tables::distinct::<EpisodeRow>(self.episodes)
        &&& tables::distinct::<QueueRow>(self.queue)
        &&& tables::distinct::<PreferenceRow>(self.preferences)
        &&& tables::distinct::<QueueStamp>(self.queue_stamps)
    }

    pub open spec fn touched(self, rows: nat) -> LibraryView {
        LibraryView { revision: bumped(self.revision, rows), ..self }
    }
}

/// The revision after so many rows were written. It stops at its highest value.
pub open spec fn bumped(revision: i64, rows: nat) -> i64 {
    if revision + rows > i64::MAX {
        i64::MAX
    } else {
        (revision + rows) as i64
    }
}

// ── reading ─────────────────────────────────────────────────────────────

pub open spec fn to_episode(r: tables::EpisodeRowView) -> engine::EpisodeView {
    engine::EpisodeView {
        id: r.id,
        relative_path: r.relative_path,
        position: r.position,
        watched_at: r.watched_at,
        resume_pos: r.resume_pos,
    }
}

/// The episodes of a show as the table lists them.
pub open spec fn episodes_in(rows: Seq<tables::EpisodeRowView>, show_id: Seq<char>) -> Seq<
    engine::EpisodeView,
>
    decreases rows.len(),
{
    if rows.len() == 0 {
        Seq::empty()
    } else if rows.last().show_id == show_id {
        episodes_in(rows.drop_last(), show_id).push(to_episode(rows.last()))
    } else {
        episodes_in(rows.drop_last(), show_id)
    }
}

/// The show that a row stands for, its episodes in the order of their positions.
pub open spec fn assembled(v: LibraryView, row: tables::ShowRowView) -> engine::ShowView {
    engine::ShowView {
        id: row.id,
        playlist: row.playlist,
        name: row.name,
        root_path: row.root_path,
        episodes: sorting::in_order::<Episode>(episodes_in(v.episodes, row.id)),
        removed_at: row.removed_at,
        date_added: row.date_added,
    }
}

pub open spec fn show_of(v: LibraryView, show_id: Seq<char>) -> Option<engine::ShowView> {
    match tables::place::<ShowRow>(v.shows, show_id) {
        Some(i) => Some(assembled(v, v.shows[i])),
        None => None,
    }
}

/// The shows of some playlists that are not retired.
pub open spec fn active_among(
    v: LibraryView,
    rows: Seq<tables::ShowRowView>,
    playlists: Seq<Seq<char>>,
) -> Seq<engine::ShowView>
    decreases rows.len(),
{
    if rows.len() == 0 {
        Seq::empty()
    } else if rows.last().removed_at is None && playlists.contains(rows.last().playlist) {
        active_among(v, rows.drop_last(), playlists).push(assembled(v, rows.last()))
    } else {
        active_among(v, rows.drop_last(), playlists)
    }
}

/// The shows of all playlists that are not retired.
pub open spec fn all_among(v: LibraryView, rows: Seq<tables::ShowRowView>) -> Seq<engine::ShowView>
    decreases rows.len(),
{
    if rows.len() == 0 {
        Seq::empty()
    } else if rows.last().removed_at is None {
        all_among(v, rows.drop_last()).push(assembled(v, rows.last()))
    } else {
        all_among(v, rows.drop_last())
    }
}

pub open spec fn resume_of(v: LibraryView, episode_id: Seq<char>) -> Option<u64> {
    match tables::place::<EpisodeRow>(v.episodes, episode_id) {
        Some(i) => v.episodes[i].resume_pos,
        None => None,
    }
}

pub open spec fn preferences_of(v: LibraryView, episode_id: Seq<char>) -> PreferencesView {
    match tables::place::<PreferenceRow>(v.preferences, episode_id) {
        Some(i) => PreferencesView {
            subtitle_track: v.preferences[i].subtitle_track,
            audio_track: v.preferences[i].audio_track,
        },
        None => PreferencesView { subtitle_track: None, audio_track: None },
    }
}

// ── writing ─────────────────────────────────────────────────────────────

/// The episode rows after every row with the id was marked watched.
pub open spec fn rows_watched(
    rows: Seq<tables::EpisodeRowView>,
    id: Seq<char>,
    now: Seq<char>,
    forget_resume: bool,
) -> Seq<tables::EpisodeRowView> {
    Seq::new(
        rows.len(),
        |i: int|
            if rows[i].id == id {
                tables::EpisodeRowView {
                    watched_at: Some(now),
                    resume_pos: if forget_resume {
                        None
                    } else {
                        rows[i].resume_pos
                    },
                    updated_at: now,
                    ..rows[i]
                }
            } else {
                rows[i]
            },
    )
}

pub open spec fn episode_marked(
    v: LibraryView,
    id: Seq<char>,
    now: Seq<char>,
    forget_resume: bool,
) -> LibraryView {
    LibraryView {
        episodes: rows_watched(v.episodes, id, now, forget_resume),
        ..v.touched(tables::hits::<EpisodeRow>(v.episodes, id))
    }
}

pub open spec fn play_recorded(v: LibraryView, row: tables::HistoryEntryView) -> LibraryView {
    LibraryView { history: v.history.push(row), ..v.touched(1) }
}

pub open spec fn rows_retired(
    rows: Seq<tables::ShowRowView>,
    id: Seq<char>,
    removed_at: Option<Seq<char>>,
    now: Seq<char>,
) -> Seq<tables::ShowRowView> {
    Seq::new(
        rows.len(),
        |i: int|
            if rows[i].id == id {
                tables::ShowRowView { removed_at, updated_at: now, ..rows[i] }
            } else {
                rows[i]
            },
    )
}

/// A show's retirement set or, with `None`, taken back.
pub open spec fn retired(
    v: LibraryView,
    id: Seq<char>,
    removed_at: Option<Seq<char>>,
    now: Seq<char>,
) -> LibraryView {
    LibraryView {
        shows: rows_retired(v.shows, id, removed_at, now),
        ..v.touched(tables::hits::<ShowRow>(v.shows, id))
    }
}

/// The library after each of the plays: its episode is watched, its resume point
/// forgotten where that is asked for, and a row with the next of `ids` is in the
/// watch history.
pub open spec fn plays_stored(
    v: LibraryView,
    plays: Seq<engine::HistoryRowView>,
    now: Seq<char>,
    ids: Seq<Seq<char>>,
    forget_resume: bool,
) -> LibraryView
    decreases plays.len(),
{
    if plays.len() == 0 {
        v
    } else {
        let before = plays_stored(v, plays.drop_last(), now, ids, forget_resume);
        let p = plays.last();
        play_recorded(
            episode_marked(before, p.episode_id, now, forget_resume),
            tables::HistoryEntryView {
                id: ids[plays.len() - 1],
                show_id: p.show_id,
                episode_id: p.episode_id,
                relative_path: Some(p.relative_path),
                played_at: p.played_at,
            },
        )
    }
}

/// The plays that advancing these episodes of a show brings.
pub open spec fn plays_of(
    v: LibraryView,
    show_id: Seq<char>,
    ids: Seq<Seq<char>>,
    now: Seq<char>,
) -> Seq<engine::HistoryRowView> {
    match show_of(v, show_id) {
        Some(s) => engine::plays(s.id, s.episodes, ids, now),
        None => Seq::empty(),
    }
}

pub open spec fn show_drains(
    v: LibraryView,
    show_id: Seq<char>,
    ids: Seq<Seq<char>>,
    now: Seq<char>,
) -> bool {
    match show_of(v, show_id) {
        Some(s) => engine::drains(s, ids, now),
        None => false,
    }
}

/// The library after episodes of one show were advanced.
pub open spec fn show_advanced(
    v: LibraryView,
    show_id: Seq<char>,
    episode_ids: Seq<Seq<char>>,
    now: Seq<char>,
    ids: Seq<Seq<char>>,
) -> LibraryView {
    let stored = plays_stored(
        v,
        plays_of(v, show_id, episode_ids, now),
        now,
        ids,
        true,
    );
    if show_drains(v, show_id, episode_ids, now) {
        retired(stored, show_id, Some(now), now)
    } else {
        stored
    }
}

/// What is to be advanced of one show.
#[derive(Debug, Clone)]
pub struct ShowBatch {
    pub show_id: String,
    pub episode_ids: Vec<String>,
}

#[verifier::ext_equal]
pub struct ShowBatchView {
    pub show_id: Seq<char>,
    pub episode_ids: Seq<Seq<char>>,
}

impl DeepView for ShowBatch {
    type V = ShowBatchView;

    open spec fn deep_view(&self) -> ShowBatchView {
        ShowBatchView { show_id: self.show_id@, episode_ids: self.episode_ids.deep_view() }
    }
}

/// The batches with one more entry: behind the show's others, or as a batch of
/// its own where the order of show ids wants it.
pub open spec fn batched(
    batches: Seq<ShowBatchView>,
    show_id: Seq<char>,
    episode_id: Seq<char>,
) -> Seq<ShowBatchView>
    decreases batches.len(),
{
    if batches.len() == 0 {
        seq![ShowBatchView { show_id, episode_ids: seq![episode_id] }]
    } else if batches.last().show_id == show_id {
        batches.drop_last().push(
            ShowBatchView { show_id, episode_ids: batches.last().episode_ids.push(episode_id) },
        )
    } else if text::text_before(batches.last().show_id, show_id) {
        batches.push(ShowBatchView { show_id, episode_ids: seq![episode_id] })
    } else {
        batched(batches.drop_last(), show_id, episode_id).push(batches.last())
    }
}

/// Entries grouped by show, the shows in the order of their ids.
pub open spec fn batches_of(entries: Seq<(Seq<char>, Seq<char>)>) -> Seq<ShowBatchView>
    decreases entries.len(),
{
    if entries.len() == 0 {
        Seq::empty()
    } else {
        batched(batches_of(entries.drop_last()), entries.last().0, entries.last().1)
    }
}

/// The library after every batch was advanced in turn.
pub open spec fn batches_advanced(
    v: LibraryView,
    batches: Seq<ShowBatchView>,
    now: Seq<char>,
    ids: Seq<Seq<char>>,
) -> LibraryView
    decreases batches.len(),
{
    if batches.len() == 0 {
        v
    } else {
        let before = batches_advanced(v, batches.drop_last(), now, ids);
        show_advanced(
            before,
            batches.last().show_id,
            batches.last().episode_ids,
            now,
            ids.skip(before.history.len() - v.history.len()),
        )
    }
}

/// The shows that advancing the batches retired.
pub open spec fn batches_drained(
    v: LibraryView,
    batches: Seq<ShowBatchView>,
    now: Seq<char>,
    ids: Seq<Seq<char>>,
) -> Seq<Seq<char>>
    decreases batches.len(),
{
    if batches.len() == 0 {
        Seq::empty()
    } else {
        let before = batches_advanced(v, batches.drop_last(), now, ids);
        let drained = batches_drained(v, batches.drop_last(), now, ids);
        if show_drains(before, batches.last().show_id, batches.last().episode_ids, now) {
            drained.push(batches.last().show_id)
        } else {
            drained
        }
    }
}

/// The library after an advance of `(show, episode)` entries at a time, with ids
/// for the rows of the watch history.
pub open spec fn advanced(
    v: LibraryView,
    entries: Seq<(Seq<char>, Seq<char>)>,
    now: Seq<char>,
    ids: Seq<Seq<char>>,
) -> LibraryView {
    batches_advanced(v, batches_of(entries), now, ids)
}

/// How many episodes an advance newly watches.
pub open spec fn newly_watched(
    v: LibraryView,
    entries: Seq<(Seq<char>, Seq<char>)>,
    now: Seq<char>,
    ids: Seq<Seq<char>>,
) -> int {
    advanced(v, entries, now, ids).history.len() - v.history.len()
}

proof fn lemma_plays_stored_history(
    v: LibraryView,
    plays: Seq<engine::HistoryRowView>,
    now: Seq<char>,
    ids: Seq<Seq<char>>,
    forget_resume: bool,
)
    ensures
        plays_stored(v, plays, now, ids, forget_resume).history.len() == v.history.len() + plays.len(),
    decreases plays.len(),
{
    if plays.len() > 0 {
        lemma_plays_stored_history(v, plays.drop_last(), now, ids, forget_resume);
    }
}

/// How many entries the batches hold together.
spec fn entry_count(batches: Seq<ShowBatchView>) -> nat
    decreases batches.len(),
{
    if batches.len() == 0 {
        0
    } else {
        entry_count(batches.drop_last()) + batches.last().episode_ids.len()
    }
}

proof fn lemma_batched_count(batches: Seq<ShowBatchView>, show_id: Seq<char>, episode_id: Seq<char>)
    ensures
        entry_count(batched(batches, show_id, episode_id)) == entry_count(batches) + 1,
    decreases batches.len(),
{
    if batches.len() == 0 {
        let one = seq![ShowBatchView { show_id, episode_ids: seq![episode_id] }];
        assert(one.drop_last() =~= Seq::empty());
        assert(entry_count(one.drop_last()) == 0);
    } else if batches.last().show_id == show_id {
        let b = batched(batches, show_id, episode_id);
        assert(b.drop_last() =~= batches.drop_last());
    } else if text::text_before(batches.last().show_id, show_id) {
        let b = batched(batches, show_id, episode_id);
        assert(b.drop_last() =~= batches);
    } else {
        lemma_batched_count(batches.drop_last(), show_id, episode_id);
        let b = batched(batches, show_id, episode_id);
        assert(b.drop_last() =~= batched(batches.drop_last(), show_id, episode_id));
    }
}

proof fn lemma_batches_count(entries: Seq<(Seq<char>, Seq<char>)>)
    ensures
        entry_count(batches_of(entries)) == entries.len(),
    decreases entries.len(),
{
    if entries.len() > 0 {
        lemma_batches_count(entries.drop_last());
        lemma_batched_count(batches_of(entries.drop_last()), entries.last().0, entries.last().1);
    }
}

proof fn lemma_advanced_history(
    v: LibraryView,
    batches: Seq<ShowBatchView>,
    now: Seq<char>,
    ids: Seq<Seq<char>>,
)
    ensures
        v.history.len() <= batches_advanced(v, batches, now, ids).history.len() <= v.history.len()
            + entry_count(batches),
    decreases batches.len(),
{
    if batches.len() > 0 {
        lemma_advanced_history(v, batches.drop_last(), now, ids);
        let before = batches_advanced(v, batches.drop_last(), now, ids);
        let b = batches.last();
        let plays = plays_of(before, b.show_id, b.episode_ids, now);
        lemma_plays_stored_history(
            before,
            plays,
            now,
            ids.skip(before.history.len() - v.history.len()),
            true,
        );
        match show_of(before, b.show_id) {
            Some(s) => {
                engine::law_one_play_per_marked_episode(s.id, s.episodes, b.episode_ids, now);
            },
            None => {},
        }
    }
}

proof fn lemma_entry_count_monotone(batches: Seq<ShowBatchView>, n: int)
    requires
        0 <= n <= batches.len(),
    ensures
        entry_count(batches.take(n)) <= entry_count(batches),
    decreases batches.len(),
{
    if n == batches.len() {
        assert(batches.take(n) =~= batches);
    } else {
        lemma_entry_count_monotone(batches.drop_last(), n);
        assert(batches.drop_last().take(n) =~= batches.take(n));
    }
}

impl Replica {
    /// An empty library.
    pub fn new() -> (r: Replica)
        ensures
            r.deep_view() == (LibraryView {
                shows: Seq::empty(),
                episodes: Seq::empty(),
                history: Seq::empty(),
                queue: Seq::empty(),
                preferences: Seq::empty(),
                volume: None,
                queue_stamps: Seq::empty(),
                revision: 0,
            }),
            r.deep_view().well_formed(),
    {
        let r = Replica {
            shows: Vec::new(),
            episodes: Vec::new(),
            history: Vec::new(),
            queue: Vec::new(),
            preferences: Vec::new(),
            volume: None,
            queue_stamps: Vec::new(),
            revision: 0,
        };
        proof {
            assert(r.shows.deep_view() =~= Seq::empty());
            assert(r.episodes.deep_view() =~= Seq::empty());
            assert(r.history.deep_view() =~= Seq::empty());
            assert(r.queue.deep_view() =~= Seq::empty());
            assert(r.preferences.deep_view() =~= Seq::empty());
            assert(r.queue_stamps.deep_view() =~= Seq::empty());
        }
        r
    }

    /// The shared change counter.
    pub fn revision(&self) -> (r: i64)
        ensures
            r == self.revision,
    {
        self.revision
    }

    pub(crate) fn bump(&mut self, rows: usize)
        ensures
            final(self).deep_view() == old(self).deep_view().touched(rows as nat),
            final(self).revision == bumped(old(self).revision, rows as nat),
            *final(self) == (Replica { revision: final(self).revision, ..*old(self) }),
    {
        let next: i128 = self.revision as i128 + rows as i128;
        self.revision = if next > i64::MAX as i128 {
            i64::MAX
        } else {
            next as i64
        };
    }

    pub(crate) fn assemble(&self, row: &ShowRow) -> (r: Show)
        ensures
            r.deep_view() == assembled(self.deep_view(), row.deep_view()),
    {
        let ghost rows = self.episodes.deep_view();
        let mut episodes: Vec<Episode> = Vec::new();
        let mut i: usize = 0;
        assert(episodes.deep_view() =~= episodes_in(rows.take(0), row.id@));
        while i < self.episodes.len()
            invariant
                i <= self.episodes@.len(),
                rows == self.episodes.deep_view(),
                episodes.deep_view() == episodes_in(rows.take(i as int), row.id@),
            decreases self.episodes.len() - i,
        {
            let e = &self.episodes[i];
            proof {
                assert(rows[i as int] == e.deep_view());
                assert(rows.take(i + 1).drop_last() =~= rows.take(i as int));
                assert(rows.take(i + 1).last() == e.deep_view());
            }
            if e.show_id == row.id {
                let ghost before = episodes.deep_view();
                episodes.push(
                    Episode {
                        id: e.id.clone(),
                        relative_path: e.relative_path.clone(),
                        position: e.position,
                        watched_at: e.watched_at.clone(),
                        resume_pos: e.resume_pos,
                    },
                );
                assert(episodes.deep_view() =~= before.push(to_episode(e.deep_view())));
            }
            i = i + 1;
        }
        assert(rows.take(i as int) =~= rows);
        Show {
            id: row.id.clone(),
            playlist: row.playlist.clone(),
            name: row.name.clone(),
            root_path: row.root_path.clone(),
            episodes: sorting::stable_sort(episodes),
            removed_at: row.removed_at.clone(),
            date_added: row.date_added.clone(),
        }
    }

    /// A show with its episodes, retired or not.
    pub fn show(&self, show_id: &str) -> (r: Option<Show>)
        ensures
            r.deep_view() == show_of(self.deep_view(), show_id@),
    {
        match tables::find(&self.shows, show_id) {
            Some(i) => Some(self.assemble(&self.shows[i])),
            None => None,
        }
    }

    /// The shows of the given playlists that are not retired: what a round is
    /// made of.
    pub fn active_shows(&self, playlists: &[String]) -> (r: Vec<Show>)
        ensures
            r.deep_view() == active_among(
                self.deep_view(),
                self.deep_view().shows,
                playlists.deep_view(),
            ),
    {
        let ghost v = self.deep_view();
        let mut out: Vec<Show> = Vec::new();
        let mut i: usize = 0;
        assert(out.deep_view() =~= active_among(v, v.shows.take(0), playlists.deep_view()));
        while i < self.shows.len()
            invariant
                i <= self.shows@.len(),
                v == self.deep_view(),
                out.deep_view() == active_among(
                    v,
                    v.shows.take(i as int),
                    playlists.deep_view(),
                ),
            decreases self.shows.len() - i,
        {
            let row = &self.shows[i];
            proof {
                assert(v.shows[i as int] == row.deep_view());
                assert(v.shows.take(i + 1).drop_last() =~= v.shows.take(i as int));
                assert(v.shows.take(i + 1).last() == row.deep_view());
            }
            if row.removed_at.is_none() && text::is_among(row.playlist.as_str(), playlists) {
                let ghost before = out.deep_view();
                out.push(self.assemble(row));
                assert(out.deep_view() =~= before.push(assembled(v, row.deep_view())));
            }
            i = i + 1;
        }
        assert(v.shows.take(i as int) =~= v.shows);
        out
    }

    /// The shows of every playlist that are not retired.
    pub fn all_shows(&self) -> (r: Vec<Show>)
        ensures
            r.deep_view() == all_among(self.deep_view(), self.deep_view().shows),
    {
        let ghost v = self.deep_view();
        let mut out: Vec<Show> = Vec::new();
        let mut i: usize = 0;
        assert(out.deep_view() =~= all_among(v, v.shows.take(0)));
        while i < self.shows.len()
            invariant
                i <= self.shows@.len(),
                v == self.deep_view(),
                out.deep_view() == all_among(v, v.shows.take(i as int)),
            decreases self.shows.len() - i,
        {
            let row = &self.shows[i];
            proof {
                assert(v.shows[i as int] == row.deep_view());
                assert(v.shows.take(i + 1).drop_last() =~= v.shows.take(i as int));
                assert(v.shows.take(i + 1).last() == row.deep_view());
            }
            if row.removed_at.is_none() {
                let ghost before = out.deep_view();
                out.push(self.assemble(row));
                assert(out.deep_view() =~= before.push(assembled(v, row.deep_view())));
            }
            i = i + 1;
        }
        assert(v.shows.take(i as int) =~= v.shows);
        out
    }

    /// Where playback of an episode stopped.
    pub fn resume_pos(&self, episode_id: &str) -> (r: Option<u64>)
        ensures
            r == resume_of(self.deep_view(), episode_id@),
    {
        match tables::find(&self.episodes, episode_id) {
            Some(i) => {
                assert(self.deep_view().episodes[i as int] == self.episodes@[i as int].deep_view());
                self.episodes[i].resume_pos
            },
            None => None,
        }
    }

    /// The track choices of an episode; none where none was made.
    pub fn playback_preferences(&self, episode_id: &str) -> (r: EpisodePlaybackPreferences)
        ensures
            r.deep_view() == preferences_of(self.deep_view(), episode_id@),
    {
        match tables::find(&self.preferences, episode_id) {
            Some(i) => {
                let row = &self.preferences[i];
                assert(self.deep_view().preferences[i as int] == row.deep_view());
                EpisodePlaybackPreferences {
                    subtitle_track: row.subtitle_track.clone(),
                    audio_track: row.audio_track.clone(),
                }
            },
            None => EpisodePlaybackPreferences { subtitle_track: None, audio_track: None },
        }
    }

    pub(crate) fn mark_episode(&mut self, id: &str, now: &str, forget_resume: bool)
        ensures
            final(self).deep_view() == episode_marked(
                old(self).deep_view(),
                id@,
                now@,
                forget_resume,
            ),
    {
        let rows: usize = tables::count_hits(&self.episodes, id);
        let ghost v = self.deep_view();
        let ghost want = rows_watched(v.episodes, id@, now@, forget_resume);
        let mut i: usize = 0;
        while i < self.episodes.len()
            invariant
                i <= self.episodes@.len(),
                want == rows_watched(v.episodes, id@, now@, forget_resume),
                self.episodes@.len() == v.episodes.len(),
                forall|j: int|
                    0 <= j < i ==> (#[trigger] self.episodes@[j]).deep_view() == want[j],
                forall|j: int|
                    i <= j < v.episodes.len() ==> (#[trigger] self.episodes@[j]).deep_view()
                        == v.episodes[j],
                self.deep_view() == (LibraryView { episodes: self.episodes.deep_view(), ..v }),
            decreases self.episodes.len() - i,
        {
            assert(self.episodes@[i as int].deep_view() == v.episodes[i as int]);
            if self.episodes[i].has_key(id) {
                self.episodes[i].watched_at = Some(now.to_owned());
                self.episodes[i].updated_at = now.to_owned();
                if forget_resume {
                    self.episodes[i].resume_pos = None;
                }
            }
            assert(self.episodes@[i as int].deep_view() == want[i as int]);
            i = i + 1;
        }
        assert(self.episodes.deep_view() =~= want);
        self.bump(rows);
    }

    pub(crate) fn record_play(&mut self, row: HistoryEntry)
        ensures
            final(self).deep_view() == play_recorded(old(self).deep_view(), row.deep_view()),
    {
        let ghost v = self.deep_view();
        self.history.push(row);
        assert(self.history.deep_view() =~= v.history.push(row.deep_view()));
        self.bump(1);
    }

    pub(crate) fn retire(&mut self, id: &str, removed_at: Option<&str>, now: &str)
        ensures
            final(self).deep_view() == retired(
                old(self).deep_view(),
                id@,
                removed_at.deep_view(),
                now@,
            ),
    {
        let rows: usize = tables::count_hits(&self.shows, id);
        let ghost v = self.deep_view();
        let ghost want = rows_retired(v.shows, id@, removed_at.deep_view(), now@);
        let mut i: usize = 0;
        while i < self.shows.len()
            invariant
                i <= self.shows@.len(),
                want == rows_retired(v.shows, id@, removed_at.deep_view(), now@),
                self.shows@.len() == v.shows.len(),
                forall|j: int| 0 <= j < i ==> (#[trigger] self.shows@[j]).deep_view() == want[j],
                forall|j: int|
                    i <= j < v.shows.len() ==> (#[trigger] self.shows@[j]).deep_view()
                        == v.shows[j],
                self.deep_view() == (LibraryView { shows: self.shows.deep_view(), ..v }),
            decreases self.shows.len() - i,
        {
            assert(self.shows@[i as int].deep_view() == v.shows[i as int]);
            if self.shows[i].has_key(id) {
                self.shows[i].removed_at = match removed_at {
                    Some(t) => Some(t.to_owned()),
                    None => None,
                };
                self.shows[i].updated_at = now.to_owned();
            }
            assert(self.shows@[i as int].deep_view() == want[i as int]);
            i = i + 1;
        }
        assert(self.shows.deep_view() =~= want);
        self.bump(rows);
    }

    pub(crate) fn store_plays(
        &mut self,
        plays: &Vec<HistoryRow>,
        now: &str,
        ids: &[String],
        used: usize,
        forget_resume: bool,
    )
        requires
            used + plays@.len() <= ids@.len(),
        ensures
            final(self).deep_view() == plays_stored(
                old(self).deep_view(),
                plays.deep_view(),
                now@,
                ids.deep_view().skip(used as int),
                forget_resume,
            ),
    {
        let ghost v = self.deep_view();
        let ghost all = plays.deep_view();
        let ghost fresh = ids.deep_view().skip(used as int);
        let supply: usize = ids.len();
        let mut i: usize = 0;
        assert(all.take(0) =~= Seq::empty());
        while i < plays.len()
            invariant
                i <= plays@.len(),
                supply == ids@.len(),
                all == plays.deep_view(),
                used + plays@.len() <= ids@.len(),
                fresh == ids.deep_view().skip(used as int),
                self.deep_view() == plays_stored(v, all.take(i as int), now@, fresh, forget_resume),
            decreases plays.len() - i,
        {
            let p = &plays[i];
            proof {
                assert(all[i as int] == p.deep_view());
                assert(all.take(i + 1).drop_last() =~= all.take(i as int));
                assert(all.take(i + 1).last() == p.deep_view());
                assert(fresh[i as int] == ids@[used + i]@);
            }
            self.mark_episode(p.episode_id.as_str(), now, forget_resume);
            self.record_play(
                HistoryEntry {
                    id: ids[used + i].clone(),
                    show_id: p.show_id.clone(),
                    episode_id: p.episode_id.clone(),
                    relative_path: Some(p.relative_path.clone()),
                    played_at: p.played_at.clone(),
                },
            );
            i = i + 1;
        }
        assert(all.take(i as int) =~= all);
    }

    /// Advances episodes of one show. Returns how many were newly watched, and
    /// whether the show was drained by it.
    fn advance_show(&mut self, batch: &ShowBatch, now: &str, ids: &[String], used: usize) -> (r: (
        usize,
        bool,
    ))
        requires
            used + batch.episode_ids@.len() <= ids@.len(),
        ensures
            final(self).deep_view() == show_advanced(
                old(self).deep_view(),
                batch.show_id@,
                batch.episode_ids.deep_view(),
                now@,
                ids.deep_view().skip(used as int),
            ),
            r.0 == plays_of(
                old(self).deep_view(),
                batch.show_id@,
                batch.episode_ids.deep_view(),
                now@,
            ).len(),
            r.0 <= batch.episode_ids@.len(),
            r.1 == show_drains(
                old(self).deep_view(),
                batch.show_id@,
                batch.episode_ids.deep_view(),
                now@,
            ),
    {
        let mut show = match self.show(batch.show_id.as_str()) {
            Some(s) => s,
            None => {
                return (0, false);
            },
        };
        let ghost s = show.deep_view();
        let (plays, n, drained) = engine::advance(&mut show, batch.episode_ids.as_slice(), now);
        proof {
            engine::law_one_play_per_marked_episode(
                s.id,
                s.episodes,
                batch.episode_ids.deep_view(),
                now@,
            );
        }
        self.store_plays(&plays, now, ids, used, true);
        if drained {
            self.retire(batch.show_id.as_str(), Some(now), now);
        }
        (n, drained)
    }

    /// Marks `(show, episode)` pairs watched at the given time, appends their
    /// plays to the watch history and retires the shows that this drains. `ids`
    /// supplies the ids of the history rows. Returns how many episodes were newly
    /// watched, and the ids of the shows retired.
    pub fn advance_at(&mut self, entries: &[(String, String)], now: &str, ids: &[String]) -> (r: (
        usize,
        Vec<String>,
    ))
        requires
            entries@.len() <= ids@.len(),
        ensures
            final(self).deep_view() == advanced(
                old(self).deep_view(),
                entries.deep_view(),
                now@,
                ids.deep_view(),
            ),
            r.0 == newly_watched(
                old(self).deep_view(),
                entries.deep_view(),
                now@,
                ids.deep_view(),
            ),
            r.1.deep_view() == batches_drained(
                old(self).deep_view(),
                batches_of(entries.deep_view()),
                now@,
                ids.deep_view(),
            ),
    {
        let batches = batch_by_show(entries);
        let ghost v = self.deep_view();
        let ghost all = batches.deep_view();
        let ghost idv = ids.deep_view();
        let supply: usize = ids.len();
        let mut total: usize = 0;
        let mut removed: Vec<String> = Vec::new();
        let mut i: usize = 0;
        proof {
            lemma_batches_count(entries.deep_view());
            assert(all.take(0) =~= Seq::empty());
            assert(removed.deep_view() =~= Seq::empty());
        }
        while i < batches.len()
            invariant
                i <= batches@.len(),
                supply == ids@.len(),
                all == batches.deep_view(),
                idv == ids.deep_view(),
                entry_count(all) <= ids@.len(),
                self.deep_view() == batches_advanced(v, all.take(i as int), now@, idv),
                total == self.deep_view().history.len() - v.history.len(),
                removed.deep_view() == batches_drained(v, all.take(i as int), now@, idv),
            decreases batches.len() - i,
        {
            let b = &batches[i];
            let ghost before = self.deep_view();
            proof {
                assert(all[i as int] == b.deep_view());
                assert(all.take(i + 1).drop_last() =~= all.take(i as int));
                assert(all.take(i + 1).last() == b.deep_view());
                lemma_advanced_history(v, all.take(i as int), now@, idv);
                lemma_entry_count_monotone(all, i + 1);
                lemma_plays_stored_history(
                    before,
                    plays_of(before, b.show_id@, b.episode_ids.deep_view(), now@),
                    now@,
                    idv.skip(total as int),
                    true,
                );
            }
            let (n, drained) = self.advance_show(b, now, ids, total);
            total = total + n;
            if drained {
                let ghost had = removed.deep_view();
                removed.push(b.show_id.clone());
                assert(removed.deep_view() =~= had.push(b.show_id@));
            }
            i = i + 1;
        }
        assert(all.take(i as int) =~= all);
        (total, removed)
    }

    /// Marks `(show, episode)` pairs watched now. See [`Replica::advance_at`].
    pub fn advance(&mut self, entries: &[(String, String)]) -> (r: (usize, Vec<String>))
        ensures
            exists|now: Seq<char>, ids: Seq<Seq<char>>|
                #![trigger advanced(old(self).deep_view(), entries.deep_view(), now, ids)]
                ids.len() == entries@.len() && final(self).deep_view() == advanced(
                    old(self).deep_view(),
                    entries.deep_view(),
                    now,
                    ids,
                ) && r.0 == newly_watched(old(self).deep_view(), entries.deep_view(), now, ids)
                    && r.1.deep_view() == batches_drained(
                    old(self).deep_view(),
                    batches_of(entries.deep_view()),
                    now,
                    ids,
                ),
    {
        let now = clock::now();
        let ids = clock::new_ids(entries.len());
        self.advance_at(entries, now.as_str(), ids.as_slice())
    }
}

// ── one episode ─────────────────────────────────────────────────────────

pub open spec fn rows_positioned(
    rows: Seq<tables::EpisodeRowView>,
    id: Seq<char>,
    position: i64,
    now: Seq<char>,
) -> Seq<tables::EpisodeRowView> {
    Seq::new(
        rows.len(),
        |i: int|
            if rows[i].id == id {
                tables::EpisodeRowView { position, updated_at: now, ..rows[i] }
            } else {
                rows[i]
            },
    )
}

/// Whether deferring the episode moves it.
pub open spec fn defers(v: LibraryView, show_id: Seq<char>, episode_id: Seq<char>) -> bool {
    match show_of(v, show_id) {
        Some(s) => engine::can_defer(s.episodes, episode_id),
        None => false,
    }
}

/// Whether there is a position behind all others for an episode to be moved to.
pub open spec fn has_room_behind(v: LibraryView, show_id: Seq<char>) -> bool {
    match show_of(v, show_id) {
        Some(s) => engine::highest_position(s.episodes) < i64::MAX,
        None => true,
    }
}

/// The library after an episode was deferred.
pub open spec fn deferred(
    v: LibraryView,
    show_id: Seq<char>,
    episode_id: Seq<char>,
    now: Seq<char>,
) -> LibraryView {
    if defers(v, show_id, episode_id) {
        let behind = engine::highest_position(show_of(v, show_id)->0.episodes) + 1;
        LibraryView {
            episodes: rows_positioned(v.episodes, episode_id, behind as i64, now),
            ..v.touched(tables::hits::<EpisodeRow>(v.episodes, episode_id))
        }
    } else {
        v
    }
}

pub open spec fn rows_resumed(
    rows: Seq<tables::EpisodeRowView>,
    id: Seq<char>,
    resume_pos: Option<u64>,
    now: Seq<char>,
) -> Seq<tables::EpisodeRowView> {
    Seq::new(
        rows.len(),
        |i: int|
            if rows[i].id == id {
                tables::EpisodeRowView { resume_pos, updated_at: now, ..rows[i] }
            } else {
                rows[i]
            },
    )
}

/// Whether a resume point is as good as the one stored: both are missing, or
/// both are there and close together.
pub open spec fn same_resume(stored: Option<u64>, pos: Option<u64>, close: bool) -> bool {
    match (stored, pos) {
        (None, None) => true,
        (Some(_), Some(_)) => close,
        _ => false,
    }
}

pub open spec fn resumed(
    v: LibraryView,
    episode_id: Seq<char>,
    pos: Option<u64>,
    close: bool,
    now: Seq<char>,
) -> LibraryView {
    if same_resume(resume_of(v, episode_id), pos, close) {
        v
    } else {
        LibraryView {
            episodes: rows_resumed(v.episodes, episode_id, pos, now),
            ..v.touched(tables::hits::<EpisodeRow>(v.episodes, episode_id))
        }
    }
}

/// Which of an episode's tracks a choice is about.
#[derive(Clone, Copy, Debug, PartialEq, Eq, Structural)]
pub enum Track {
    Subtitle,
    Audio,
}

pub open spec fn track_of(p: PreferencesView, track: Track) -> Option<Seq<char>> {
    match track {
        Track::Subtitle => p.subtitle_track,
        Track::Audio => p.audio_track,
    }
}

/// A preference row with one track chosen.
pub open spec fn with_track(
    row: tables::PreferenceRowView,
    track: Track,
    value: Seq<char>,
    now: Seq<char>,
) -> tables::PreferenceRowView {
    match track {
        Track::Subtitle => tables::PreferenceRowView {
            subtitle_track: Some(value),
            updated_at: now,
            ..row
        },
        Track::Audio => tables::PreferenceRowView {
            audio_track: Some(value),
            updated_at: now,
            ..row
        },
    }
}

/// The library after a track choice. The same choice again writes nothing.
pub open spec fn track_chosen(
    v: LibraryView,
    episode_id: Seq<char>,
    track: Track,
    value: Seq<char>,
    now: Seq<char>,
) -> LibraryView {
    if track_of(preferences_of(v, episode_id), track) == Some(value) {
        v
    } else {
        match tables::place::<PreferenceRow>(v.preferences, episode_id) {
            Some(i) => LibraryView {
                preferences: v.preferences.update(
                    i,
                    with_track(v.preferences[i], track, value, now),
                ),
                ..v.touched(1)
            },
            None => LibraryView {
                preferences: v.preferences.push(
                    with_track(
                        tables::PreferenceRowView {
                            episode_id,
                            subtitle_track: None,
                            audio_track: None,
                            updated_at: now,
                        },
                        track,
                        value,
                        now,
                    ),
                ),
                ..v.touched(1)
            },
        }
    }
}

impl Replica {
    /// Whether there is a position behind all of the show's episodes.
    pub fn has_room_behind(&self, show_id: &str) -> (r: bool)
        ensures
            r == has_room_behind(self.deep_view(), show_id@),
    {
        match self.show(show_id) {
            Some(s) => {
                let highest: i64 = engine::highest(s.episodes.as_slice());
                highest < i64::MAX
            },
            None => true,
        }
    }

    /// Sends an unwatched episode to the back of its show's queue. Returns
    /// `false`, and changes nothing, if the show has no such episode or it is
    /// watched.
    pub fn defer_at(&mut self, show_id: &str, episode_id: &str, now: &str) -> (r: bool)
        requires
            has_room_behind(old(self).deep_view(), show_id@),
        ensures
            r == defers(old(self).deep_view(), show_id@, episode_id@),
            final(self).deep_view() == deferred(
                old(self).deep_view(),
                show_id@,
                episode_id@,
                now@,
            ),
    {
        let mut show = match self.show(show_id) {
            Some(s) => s,
            None => {
                return false;
            },
        };
        let highest: i64 = engine::highest(show.episodes.as_slice());
        if !engine::defer(show.episodes.as_mut_slice(), episode_id) {
            return false;
        }
        let position: i64 = highest + 1;
        let rows: usize = tables::count_hits(&self.episodes, episode_id);
        let ghost v = self.deep_view();
        let ghost want = rows_positioned(v.episodes, episode_id@, position, now@);
        let mut i: usize = 0;
        while i < self.episodes.len()
            invariant
                i <= self.episodes@.len(),
                want == rows_positioned(v.episodes, episode_id@, position, now@),
                self.episodes@.len() == v.episodes.len(),
                forall|j: int|
                    0 <= j < i ==> (#[trigger] self.episodes@[j]).deep_view() == want[j],
                forall|j: int|
                    i <= j < v.episodes.len() ==> (#[trigger] self.episodes@[j]).deep_view()
                        == v.episodes[j],
                self.deep_view() == (LibraryView { episodes: self.episodes.deep_view(), ..v }),
            decreases self.episodes.len() - i,
        {
            assert(self.episodes@[i as int].deep_view() == v.episodes[i as int]);
            if self.episodes[i].has_key(episode_id) {
                self.episodes[i].position = position;
                self.episodes[i].updated_at = now.to_owned();
            }
            assert(self.episodes@[i as int].deep_view() == want[i as int]);
            i = i + 1;
        }
        assert(self.episodes.deep_view() =~= want);
        self.bump(rows);
        true
    }

    /// Defers an episode now. See [`Replica::defer_at`].
    pub fn defer(&mut self, show_id: &str, episode_id: &str) -> (r: bool)
        requires
            has_room_behind(old(self).deep_view(), show_id@),
        ensures
            r == defers(old(self).deep_view(), show_id@, episode_id@),
            exists|now: Seq<char>|
                final(self).deep_view() == #[trigger] deferred(
                    old(self).deep_view(),
                    show_id@,
                    episode_id@,
                    now,
                ),
    {
        let now = clock::now();
        self.defer_at(show_id, episode_id, now.as_str())
    }

    /// Stores where playback of an episode stopped, unless the stored point is as
    /// good: `close` says whether it lies within half a second of `pos`, and
    /// counts only where there are two points to compare.
    pub fn set_resume_at(&mut self, episode_id: &str, pos: Option<u64>, close: bool, now: &str)
        ensures
            final(self).deep_view() == resumed(
                old(self).deep_view(),
                episode_id@,
                pos,
                close,
                now@,
            ),
    {
        let same = match (self.resume_pos(episode_id), pos) {
            (None, None) => true,
            (Some(_), Some(_)) => close,
            _ => false,
        };
        if same {
            return;
        }
        let rows: usize = tables::count_hits(&self.episodes, episode_id);
        let ghost v = self.deep_view();
        let ghost want = rows_resumed(v.episodes, episode_id@, pos, now@);
        let mut i: usize = 0;
        while i < self.episodes.len()
            invariant
                i <= self.episodes@.len(),
                want == rows_resumed(v.episodes, episode_id@, pos, now@),
                self.episodes@.len() == v.episodes.len(),
                forall|j: int|
                    0 <= j < i ==> (#[trigger] self.episodes@[j]).deep_view() == want[j],
                forall|j: int|
                    i <= j < v.episodes.len() ==> (#[trigger] self.episodes@[j]).deep_view()
                        == v.episodes[j],
                self.deep_view() == (LibraryView { episodes: self.episodes.deep_view(), ..v }),
            decreases self.episodes.len() - i,
        {
            assert(self.episodes@[i as int].deep_view() == v.episodes[i as int]);
            if self.episodes[i].has_key(episode_id) {
                self.episodes[i].resume_pos = pos;
                self.episodes[i].updated_at = now.to_owned();
            }
            assert(self.episodes@[i as int].deep_view() == want[i as int]);
            i = i + 1;
        }
        assert(self.episodes.deep_view() =~= want);
        self.bump(rows);
    }

    /// Stores a resume point now. See [`Replica::set_resume_at`].
    pub fn set_resume(&mut self, episode_id: &str, pos: Option<u64>, close: bool)
        ensures
            exists|now: Seq<char>|
                final(self).deep_view() == #[trigger] resumed(
                    old(self).deep_view(),
                    episode_id@,
                    pos,
                    close,
                    now,
                ),
    {
        let now = clock::now();
        self.set_resume_at(episode_id, pos, close, now.as_str());
    }

    /// Stores a track choice for an episode.
    pub fn set_playback_preference(
        &mut self,
        episode_id: &str,
        track: Track,
        value: &str,
        now: &str,
    )
        ensures
            final(self).deep_view() == track_chosen(
                old(self).deep_view(),
                episode_id@,
                track,
                value@,
                now@,
            ),
    {
        let prefs = self.playback_preferences(episode_id);
        let current = match track {
            Track::Subtitle => &prefs.subtitle_track,
            Track::Audio => &prefs.audio_track,
        };
        match current {
            Some(c) => {
                if text::same_text(c.as_str(), value) {
                    return;
                }
            },
            None => {},
        }
        let ghost v = self.deep_view();
        match tables::find(&self.preferences, episode_id) {
            Some(i) => {
                assert(v.preferences[i as int] == self.preferences@[i as int].deep_view());
                match track {
                    Track::Subtitle => {
                        self.preferences[i].subtitle_track = Some(value.to_owned());
                    },
                    Track::Audio => {
                        self.preferences[i].audio_track = Some(value.to_owned());
                    },
                }
                self.preferences[i].updated_at = now.to_owned();
                assert(self.preferences.deep_view() =~= v.preferences.update(
                    i as int,
                    with_track(v.preferences[i as int], track, value@, now@),
                ));
            },
            None => {
                let row = PreferenceRow {
                    episode_id: episode_id.to_owned(),
                    subtitle_track: match track {
                        Track::Subtitle => Some(value.to_owned()),
                        Track::Audio => None,
                    },
                    audio_track: match track {
                        Track::Subtitle => None,
                        Track::Audio => Some(value.to_owned()),
                    },
                    updated_at: now.to_owned(),
                };
                self.preferences.push(row);
                assert(self.preferences.deep_view() =~= v.preferences.push(row.deep_view()));
            },
        }
        self.bump(1);
    }

    /// Stores the subtitle track chosen for an episode, now.
    pub fn set_subtitle_track(&mut self, episode_id: &str, sid: &str)
        ensures
            exists|now: Seq<char>|
                final(self).deep_view() == #[trigger] track_chosen(
                    old(self).deep_view(),
                    episode_id@,
                    Track::Subtitle,
                    sid@,
                    now,
                ),
    {
        let now = clock::now();
        self.set_playback_preference(episode_id, Track::Subtitle, sid, now.as_str());
    }

    /// Stores the audio track chosen for an episode, now.
    pub fn set_audio_track(&mut self, episode_id: &str, aid: &str)
        ensures
            exists|now: Seq<char>|
                final(self).deep_view() == #[trigger] track_chosen(
                    old(self).deep_view(),
                    episode_id@,
                    Track::Audio,
                    aid@,
                    now,
                ),
    {
        let now = clock::now();
        self.set_playback_preference(episode_id, Track::Audio, aid, now.as_str());
    }

    /// The stored volume, as it was spelled.
    pub fn get_volume(&self) -> (r: Option<String>)
        ensures
            r.deep_view() == self.deep_view().volume,
    {
        self.volume.clone()
    }

    /// Stores the spelling of a volume. The volume is not counted as a change of
    /// the library.
    pub fn set_volume(&mut self, spelled: &str)
        ensures
            final(self).deep_view() == (LibraryView {
                volume: Some(spelled@),
                ..old(self).deep_view()
            }),
    {
        self.volume = Some(spelled.to_owned());
    }
}

fn batch_by_show(entries: &[(String, String)]) -> (r: Vec<ShowBatch>)
    ensures
        r.deep_view() == batches_of(entries.deep_view()),
{
    let ghost all = entries.deep_view();
    let mut out: Vec<ShowBatch> = Vec::new();
    let mut i: usize = 0;
    assert(out.deep_view() =~= batches_of(all.take(0)));
    while i < entries.len()
        invariant
            i <= entries@.len(),
            all == entries.deep_view(),
            out.deep_view() == batches_of(all.take(i as int)),
        decreases entries.len() - i,
    {
        proof {
            assert(all[i as int] == entries@[i as int].deep_view());
            assert(all.take(i + 1).drop_last() =~= all.take(i as int));
        }
        add_to_batches(&mut out, &entries[i].0, &entries[i].1);
        i = i + 1;
    }
    assert(all.take(i as int) =~= all);
    out
}

fn add_to_batches(batches: &mut Vec<ShowBatch>, show_id: &String, episode_id: &String)
    ensures
        final(batches).deep_view() == batched(old(batches).deep_view(), show_id@, episode_id@),
{
    let ghost b0 = batches.deep_view();
    let ghost whole = batched(b0, show_id@, episode_id@);
    let mut at: usize = batches.len();
    proof {
        assert(b0.take(b0.len() as int) =~= b0);
        assert(b0.skip(b0.len() as int) =~= Seq::<ShowBatchView>::empty());
        assert(whole =~= whole + Seq::<ShowBatchView>::empty());
    }
    while at > 0
        invariant
            at <= batches@.len(),
            b0 == batches.deep_view(),
            b0 == old(batches).deep_view(),
            whole == batched(b0, show_id@, episode_id@),
            whole == batched(b0.take(at as int), show_id@, episode_id@) + b0.skip(at as int),
        ensures
            at <= batches@.len(),
            b0 == batches.deep_view(),
            whole == batched(b0.take(at as int), show_id@, episode_id@) + b0.skip(at as int),
            at == 0 || text::text_before(b0[at - 1].show_id, show_id@),
        decreases at,
    {
        let ghost t = b0.take(at as int);
        proof {
            assert(t.last() == b0[at - 1]);
            assert(b0[at - 1] == batches@[at - 1].deep_view());
            assert(t.drop_last() =~= b0.take(at - 1));
        }
        match text::rank_text(batches[at - 1].show_id.as_str(), show_id.as_str()) {
            text::Rank::Same => {
                let ghost had = batches@[at - 1].episode_ids.deep_view();
                batches[at - 1].episode_ids.push(episode_id.clone());
                proof {
                    assert(batches@[at - 1].episode_ids.deep_view() =~= had.push(episode_id@));
                    assert(batches.deep_view() =~= whole);
                }
                return;
            },
            text::Rank::Below => {
                break;
            },
            text::Rank::Above => {
                proof {
                    text::lemma_text_order(b0[at - 1].show_id, show_id@);
                    assert(batched(t, show_id@, episode_id@) == batched(
                        t.drop_last(),
                        show_id@,
                        episode_id@,
                    ).push(t.last()));
                    assert(whole =~= batched(b0.take(at - 1), show_id@, episode_id@) + b0.skip(
                        at - 1,
                    ));
                }
                at = at - 1;
            },
        }
    }
    let mut ids: Vec<String> = Vec::new();
    ids.push(episode_id.clone());
    let fresh = ShowBatch { show_id: show_id.clone(), episode_ids: ids };
    let ghost fv = fresh.deep_view();
    batches.insert(at, fresh);
    proof {
        let t = b0.take(at as int);
        assert(fv.episode_ids =~= seq![episode_id@]);
        if at > 0 {
            assert(t.last() == b0[at - 1]);
            text::lemma_text_order(t.last().show_id, show_id@);
            assert(batched(t, show_id@, episode_id@) == t.push(fv));
        } else {
            assert(batched(t, show_id@, episode_id@) =~= t.push(fv));
        }
        assert(batches.deep_view() =~= b0.insert(at as int, fv));
        assert(b0.insert(at as int, fv) =~= t.push(fv) + b0.skip(at as int));
    }
}

} // verus!
