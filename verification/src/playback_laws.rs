//! What holds of playing rounds: what counts as watched and what does not, what
//! is read back after a restart, and when the origin is asked.

use vstd::prelude::*;

use crate::engine;
use crate::filesync;
use crate::laws;
use crate::ordering;
use crate::queue;
use crate::read_back;
use crate::replica;
use crate::rounds;
use crate::runloop;
use crate::runloop::LoopState;
use crate::runner;
use crate::runner::{EffectView, RunnerView};
use crate::sorting;
use crate::tables;
use crate::tables::{Keyed, QueueRow, ShowRow};

verus! {

// ── watching ────────────────────────────────────────────────────────────

proof fn lemma_state_keeps_shows(
    v: replica::LibraryView,
    episode_id: Seq<char>,
    state: Seq<char>,
    playlist: Seq<char>,
    now: Seq<char>,
    show_id: Seq<char>,
)
    requires
        v.well_formed(),
    ensures
        queue::entry_in_state(v, episode_id, state, playlist, now).well_formed(),
        replica::show_of(queue::entry_in_state(v, episode_id, state, playlist, now), show_id)
            == replica::show_of(v, show_id),
{
    laws::law_round_changes_keep_keys(v, Seq::empty(), episode_id, state, playlist, now);
}

/// Watching one entry is advancing its episode.
proof fn lemma_one_watched(
    v: replica::LibraryView,
    c: rounds::RoundEntryView,
    now: Seq<char>,
    ids: Seq<Seq<char>>,
)
    ensures
        runner::entries_watched(v, seq![c], now, ids) == replica::show_advanced(
            queue::entry_in_state(v, c.episode_id, "watched"@, c.playlist, now),
            c.show_id,
            seq![c.episode_id],
            now,
            ids,
        ),
{
    let one = seq![c];
    let u = queue::entry_in_state(v, c.episode_id, "watched"@, c.playlist, now);
    assert(one.drop_last() =~= Seq::empty());
    assert(runner::states_set(v, one.drop_last(), "watched"@, now) == v);
    assert(runner::states_set(v, one, "watched"@, now) == u);
    let pairs = runner::pairs_of(one);
    assert(pairs =~= seq![(c.show_id, c.episode_id)]);
    assert(pairs.drop_last() =~= Seq::empty());
    assert(replica::batches_of(pairs.drop_last()) =~= Seq::empty());
    let b = replica::ShowBatchView { show_id: c.show_id, episode_ids: seq![c.episode_id] };
    assert(replica::batches_of(pairs) =~= seq![b]);
    let batches = replica::batches_of(pairs);
    assert(batches.drop_last() =~= Seq::empty());
    assert(replica::batches_advanced(u, batches.drop_last(), now, ids) == u);
    assert(ids.skip(0) =~= ids);
}

/// An entry that played to its end, or was skipped, is watched from then on, and
/// plays from its start if it is played again; every other episode and every
/// other show is as it was.
pub proof fn law_watched_entry(
    v: replica::LibraryView,
    c: rounds::RoundEntryView,
    now: Seq<char>,
    ids: Seq<Seq<char>>,
    i: int,
    other: Seq<char>,
)
    requires
        v.well_formed(),
        replica::show_of(v, c.show_id) is Some,
        engine::first_named(replica::show_of(v, c.show_id)->0.episodes, c.episode_id) == Some(i),
        replica::show_of(v, c.show_id)->0.episodes[i].watched_at is None,
        other != c.show_id,
    ensures
        ({
            let s = replica::show_of(v, c.show_id)->0;
            let w = runner::entries_watched(v, seq![c], now, ids);
            &&& replica::show_of(w, c.show_id) matches Some(t) && {
                &&& t.episodes.len() == s.episodes.len()
                &&& t.episodes[i] == (engine::EpisodeView {
                    watched_at: Some(now),
                    resume_pos: None,
                    ..s.episodes[i]
                })
                &&& forall|j: int|
                    0 <= j < s.episodes.len() && j != i ==> #[trigger] t.episodes[j]
                        == s.episodes[j]
            }
            &&& replica::show_of(w, other) == replica::show_of(v, other)
        }),
{
    let u = queue::entry_in_state(v, c.episode_id, "watched"@, c.playlist, now);
    let s = replica::show_of(v, c.show_id)->0;
    let named = seq![c.episode_id];
    lemma_one_watched(v, c, now, ids);
    lemma_state_keeps_shows(v, c.episode_id, "watched"@, c.playlist, now, c.show_id);
    lemma_state_keeps_shows(v, c.episode_id, "watched"@, c.playlist, now, other);
    laws::law_read_after_advance(u, c.show_id, named, now, ids);
    laws::law_advance_leaves_other_shows_alone(u, c.show_id, named, now, ids, other);
    engine::lemma_first_named(s.episodes, c.episode_id);
    assert(named[0] == c.episode_id);
    assert(named.contains(s.episodes[i].id));
    assert(engine::is_marked(s.episodes, named, i));
    assert forall|j: int| 0 <= j < s.episodes.len() && j != i implies !engine::is_marked(
        s.episodes,
        named,
        j,
    ) by {
        if named.contains(s.episodes[j].id) {
            assert(s.episodes[j].id == c.episode_id);
        }
    }
}

/// A natural end counts only for an entry that opened and was not deferred:
/// otherwise nothing is changed and nothing is said.
pub proof fn law_unfinished_entry_is_not_watched(
    r: RunnerView,
    v: replica::LibraryView,
    now: Seq<char>,
    ids: Seq<Seq<char>>,
)
    requires
        r.playing is None || r.deferred.contains(r.playing->0.episode_id),
    ensures
        runner::ended(r, v, now, ids) == v,
        runner::end_effects(r, v, now, ids).len() == 0,
{
}

/// Deferring the entry that plays keeps its later end from counting.
pub proof fn law_deferred_entry_is_not_watched(
    r: RunnerView,
    v: replica::LibraryView,
    now: Seq<char>,
    later: Seq<char>,
    ids: Seq<Seq<char>>,
)
    requires
        runner::can_be_deferred(r, v),
        r.playing == r.selected(),
    ensures
        ({
            let c = r.selected()->0;
            let after = RunnerView {
                deferred: runner::with_deferred(r.deferred, c.episode_id),
                ..r
            };
            let w = runner::deferred_in(r, v, now);
            runner::ended(after, w, later, ids) == w
        }),
{
    let c = r.selected()->0;
    let d = runner::with_deferred(r.deferred, c.episode_id);
    if !r.deferred.contains(c.episode_id) {
        assert(d.last() == c.episode_id);
        assert(d[d.len() - 1] == c.episode_id);
    }
    assert(d.contains(c.episode_id));
}

/// Deferring watches nothing and retires nothing.
pub proof fn law_deferring_is_not_watching(r: RunnerView, v: replica::LibraryView, now: Seq<char>)
    ensures
        runner::deferred_in(r, v, now).history == v.history,
        runner::deferred_in(r, v, now).shows == v.shows,
        forall|i: int|
            #![trigger runner::deferred_in(r, v, now).episodes[i]]
            0 <= i < v.episodes.len() ==> runner::deferred_in(r, v, now).episodes[i].watched_at
                == v.episodes[i].watched_at,
{
    match r.selected() {
        Some(c) => read_back::law_defer_only_moves_one_row(v, c.show_id, c.episode_id, now),
        None => {},
    }
}

/// Going to a show of the round keeps the round: every entry stays, in its place.
pub proof fn law_selection_keeps_the_round(
    r: RunnerView,
    v: replica::LibraryView,
    show_id: Seq<char>,
    now: Seq<char>,
)
    ensures
        ({
            let w = runner::show_selected(r, v, show_id, now);
            &&& w.queue.len() == v.queue.len()
            &&& forall|i: int|
                #![trigger w.queue[i]]
                0 <= i < v.queue.len() ==> w.queue[i].episode_id == v.queue[i].episode_id
                    && w.queue[i].play_order == v.queue[i].play_order && w.queue[i].playlist
                    == v.queue[i].playlist
            &&& w.episodes == v.episodes
            &&& w.shows == v.shows
            &&& w.history == v.history
        }),
{
}

// ── restarting ──────────────────────────────────────────────────────────

/// An entry of a new round as the stored round gives it back: only its number in
/// the order is that of its place.
pub open spec fn restored(e: rounds::RoundEntryView, place: int) -> rounds::RoundEntryView {
    rounds::RoundEntryView { order_value: (place as i32) as u32, ..e }
}

proof fn lemma_picked_row_restores(
    v: replica::LibraryView,
    w: replica::LibraryView,
    playlists: Seq<Seq<char>>,
    k: int,
    row: tables::QueueRowView,
)
    requires
        v.well_formed(),
        w.shows == v.shows,
        w.episodes == v.episodes,
        0 <= k < rounds::picked_round(v, playlists).len(),
        row.episode_id == rounds::picked_round(v, playlists)[k].episode_id,
        row.show_id == rounds::picked_round(v, playlists)[k].show_id,
        row.playlist == rounds::picked_round(v, playlists)[k].playlist,
        row.play_order == k as i32,
    ensures
        rounds::stored_entry(w, row, playlists) == Some(
            restored(rounds::picked_round(v, playlists)[k], k),
        ),
{
    let shows = replica::active_among(v, v.shows, playlists);
    let order = engine::round_of_shows(shows);
    let o = order[k];
    let e = rounds::picked_round(v, playlists)[k];
    rounds::lemma_active_distinct(v, v.shows, playlists);
    rounds::lemma_order_resolves(shows, k);
    let s = rounds::show_named(shows, o.show_id)->0;
    assert(order.contains(o));
    engine::lemma_round_members(shows, o);
    let m = choose|m: int|
        0 <= m < shows.len() && engine::offer(#[trigger] shows[m]) is Some && ordering::resolved(
            engine::offer(shows[m])->0,
        ) == o;
    if m < s {
        assert(shows[m].id != shows[s].id);
    } else if s < m {
        assert(shows[s].id != shows[m].id);
    }
    assert(m == s);
    let show = shows[s];
    read_back::law_active_shows(v, v.shows, playlists);
    assert(shows.contains(show));
    let i = choose|i: int|
        0 <= i < v.shows.len() && (#[trigger] v.shows[i]).removed_at is None && playlists.contains(
            v.shows[i].playlist,
        ) && replica::assembled(v, v.shows[i]) == show;
    assert forall|j: int| 0 <= j < i implies ShowRow::key(#[trigger] v.shows[j])
        != o.show_id by {
        assert(v.shows[j].id != v.shows[i].id);
    }
    tables::lemma_place_is::<ShowRow>(v.shows, o.show_id, i);
    assert(replica::show_of(v, o.show_id) == Some(show));
    assert(replica::show_of(w, o.show_id) == Some(show));
    laws::lemma_show_episodes_distinct(v, o.show_id);
    engine::lemma_pick_exists(show.episodes);
    let p = choose|p: int|
        engine::is_pick(show.episodes, p) && engine::pick(show.episodes) == Some(show.episodes[p]);
    let f = engine::first_named(show.episodes, o.episode_id)->0;
    engine::lemma_first_named(show.episodes, o.episode_id);
    if f < p {
        assert(show.episodes[f].id != show.episodes[p].id);
    } else if p < f {
        assert(show.episodes[p].id != show.episodes[f].id);
    }
    assert(f == p);
}

proof fn lemma_rows_restore(
    v: replica::LibraryView,
    w: replica::LibraryView,
    playlists: Seq<Seq<char>>,
    now: Seq<char>,
    n: int,
)
    requires
        v.well_formed(),
        w.shows == v.shows,
        w.episodes == v.episodes,
        0 <= n <= rounds::picked_round(v, playlists).len(),
    ensures
        ({
            let round = rounds::picked_round(v, playlists);
            let rows = queue::queue_rows(rounds::rows_to_store(round), now).take(n);
            &&& rounds::stored_entries(w, rows, playlists) == Seq::new(
                n as nat,
                |i: int| restored(round[i], i),
            )
            &&& n > 0 ==> rounds::first_open(w, rows, playlists) == Some(0nat)
        }),
    decreases n,
{
    let round = rounds::picked_round(v, playlists);
    let all = queue::queue_rows(rounds::rows_to_store(round), now);
    let rows = all.take(n);
    if n > 0 {
        lemma_rows_restore(v, w, playlists, now, n - 1);
        assert(rows.drop_last() =~= all.take(n - 1));
        assert(rows.last() == all[n - 1]);
        lemma_picked_row_restores(v, w, playlists, n - 1, all[n - 1]);
        assert(rounds::stored_entries(w, rows, playlists) =~= Seq::new(
            n as nat,
            |i: int| restored(round[i], i),
        ));
        if n == 1 {
            assert(all.take(0) =~= Seq::empty());
            assert(rounds::first_open(w, all.take(0), playlists) is None);
        }
    } else {
        assert(rows =~= Seq::empty());
        assert(rounds::stored_entries(w, rows, playlists) =~= Seq::new(
            0,
            |i: int| restored(round[i], i),
        ));
    }
}

/// A new round that was stored is the round that is loaded next, from its start:
/// a restart goes on with the same round.
pub proof fn law_new_round_reads_back(
    v: replica::LibraryView,
    playlists: Seq<Seq<char>>,
    now: Seq<char>,
)
    requires
        v.well_formed(),
        0 < rounds::picked_round(v, playlists).len() <= i32::MAX,
    ensures
        ({
            let round = rounds::picked_round(v, playlists);
            rounds::stored_round(rounds::round_renewed(v, playlists, now), playlists) == (
                Seq::new(round.len(), |i: int| restored(round[i], i)),
                0nat,
            )
        }),
{
    let round = rounds::picked_round(v, playlists);
    let entries = rounds::rows_to_store(round);
    let w = rounds::round_renewed(v, playlists, now);
    assert forall|i: int, j: int|
        #![trigger entries[i], entries[j]]
        0 <= i < j < entries.len() implies entries[i].2 <= entries[j].2 by {
        assert(entries[i].2 == i as i32 && entries[j].2 == j as i32);
    }
    read_back::law_saved_round_reads_back(v, entries, now);
    let rows = queue::queue_rows(entries, now);
    lemma_rows_restore(v, w, playlists, now, round.len() as int);
    assert(rows.take(round.len() as int) =~= rows);
    assert(sorting::in_order::<QueueRow>(w.queue) == rows);
}

// ── the loop ────────────────────────────────────────────────────────────

/// Whether an effect asks for the origin.
pub open spec fn asks_origin(e: EffectView) -> bool {
    e is RequestPush || e is RequestFullSync
}

/// Whether an effect reports the round as loaded.
pub open spec fn reports_round(e: EffectView) -> bool {
    match e {
        EffectView::Progress(p) => p.stage == "local-round.load"@ && p.state is Succeeded,
        _ => false,
    }
}

/// Before the first round is on, the origin is not asked in the background: what
/// is asked for comes last of all, after the round was reported as loaded.
pub proof fn law_first_round_comes_before_the_origin(
    v: replica::LibraryView,
    playlists: Seq<Seq<char>>,
    round: Seq<rounds::RoundEntryView>,
    state: LoopState,
    report: filesync::ReportView,
    duration_ms: u64,
    queue_dirty: bool,
)
    requires
        state.first_round,
    ensures
        forall|i: int|
            0 <= i < runloop::load_step(v, playlists, state).effects.len() ==> !asks_origin(
                #[trigger] runloop::load_step(v, playlists, state).effects[i],
            ),
        forall|i: int|
            0 <= i < runloop::retry_step(v, playlists, state).effects.len() ==> !asks_origin(
                #[trigger] runloop::retry_step(v, playlists, state).effects[i],
            ),
        ({
            let s = runloop::files_step(round, state, report, duration_ms, queue_dirty);
            forall|i: int|
                0 <= i < s.effects.len() && asks_origin(#[trigger] s.effects[i]) ==> i
                    == s.effects.len() - 1 && i > 0 && reports_round(s.effects[i - 1])
        }),
{
    let s = runloop::files_step(round, state, report, duration_ms, queue_dirty);
    let q = runloop::queued(round);
    assert forall|i: int| 0 <= i < s.effects.len() && asks_origin(#[trigger] s.effects[i]) implies i
        == s.effects.len() - 1 && i > 0 && reports_round(s.effects[i - 1]) by {
        if 2 <= i < 2 + q.len() {
            assert(s.effects[i] == q[i - 2]);
        }
        let last = runloop::first_round_on(round, state.background_sync, queue_dirty);
        assert(s.effects.len() == 4 + q.len() + last.len());
        assert(i >= 4 + q.len());
        assert(s.effects[i] == last[i - 4 - q.len()]);
        assert(i - 4 - q.len() == 1);
        assert(s.effects[i - 1] == last[0]);
    }
}

/// The loop parks for want of a round only where no active show has an unwatched
/// episode, and, with a library, not before the origin was asked once.
pub proof fn law_parks_only_when_drained(
    v: replica::LibraryView,
    playlists: Seq<Seq<char>>,
    state: LoopState,
)
    ensures
        ({
            let s = runloop::load_step(v, playlists, state);
            &&& s.action is Park ==> rounds::picked_round(v, playlists).len() == 0 && !(
            state.first_round && state.background_sync)
            &&& rounds::picked_round(v, playlists).len() > 0 ==> s.action is CheckFiles
        }),
        runloop::retry_step(v, playlists, state).action is Park ==> rounds::picked_round(
            v,
            playlists,
        ).len() == 0,
{
}

/// A round of which nothing would open is not tried for ever: the loop says so
/// and parks, and nothing is pushed.
pub proof fn law_unplayable_round_parks(
    r: RunnerView,
    state: LoopState,
    waited: Result<(), runner::PlayerShutdown>,
)
    requires
        waited is Ok,
        !r.loaded_any,
    ensures
        ({
            let s = runloop::end_step(r, state, waited, false);
            &&& s.action is Park
            &&& s.effects.len() == 2
            &&& s.effects[0] is ClearPlaylist
            &&& s.effects[1] is Failed
        }),
{
}

} // verus!
