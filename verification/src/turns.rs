//! What each turn of the loop comes to: what is done, in which order, and what is
//! to happen next.

use vstd::prelude::*;

use crate::filesync;
use crate::replica;
use crate::rounds;
use crate::runloop;
use crate::runloop::LoopState;
use crate::runner;
use crate::runner::{EffectView, PlayerShutdown, RunnerView};
use crate::sorting;
use crate::tables;
use crate::tables::QueueRow;

verus! {

// ── going to a show ─────────────────────────────────────────────────────

proof fn lemma_rows_among(
    rows: Seq<tables::QueueRowView>,
    playlists: Seq<Seq<char>>,
    i: int,
    j: int,
    q: tables::QueueRowView,
)
    requires
        forall|a: int, b: int|
            #![trigger rows[a], rows[b]]
            0 <= a < b < rows.len() ==> rows[a].play_order <= rows[b].play_order,
    ensures
        ({
            let some = runner::rows_among(rows, playlists);
            &&& some.contains(q) <==> rows.contains(q) && playlists.contains(q.playlist)
            &&& 0 <= i < j < some.len() ==> some[i].play_order <= some[j].play_order
        }),
    decreases rows.len(),
{
    if rows.len() > 0 {
        let front = rows.drop_last();
        let last = rows.last();
        let before = runner::rows_among(front, playlists);
        let some = runner::rows_among(rows, playlists);
        assert forall|a: int, b: int|
            #![trigger front[a], front[b]]
            0 <= a < b < front.len() implies front[a].play_order <= front[b].play_order by {
            assert(rows[a].play_order <= rows[b].play_order);
        }
        lemma_rows_among(front, playlists, i, j, q);
        assert(rows =~= front.push(last));
        vstd::seq_lib::lemma_seq_contains_after_push(front, last, q);
        vstd::seq_lib::lemma_seq_contains_after_push(before, last, q);
        if 0 <= i < j < some.len() && j == before.len() {
            lemma_rows_among(front, playlists, i, j, before[i]);
            assert(before.contains(before[i]));
            let a = choose|a: int| 0 <= a < front.len() && front[a] == before[i];
            assert(rows[a].play_order <= rows[rows.len() - 1].play_order);
        }
    }
}

/// The rows that the player has are those of the stored round that are of its
/// playlists, in the order in which they are played.
pub proof fn law_player_has_the_rows_of_its_playlists(
    r: RunnerView,
    v: replica::LibraryView,
    i: int,
    j: int,
    q: tables::QueueRowView,
)
    ensures
        ({
            let rows = runner::shown_rows(r, v);
            &&& rows.contains(q) <==> v.queue.contains(q) && r.playlists.contains(q.playlist)
            &&& 0 <= i < j < rows.len() ==> rows[i].play_order <= rows[j].play_order
        }),
{
    let ordered = sorting::in_order::<QueueRow>(v.queue);
    sorting::lemma_in_order::<QueueRow>(v.queue);
    assert forall|a: int, b: int|
        #![trigger ordered[a], ordered[b]]
        0 <= a < b < ordered.len() implies ordered[a].play_order <= ordered[b].play_order by {
        assert(<QueueRow as sorting::Sortable>::leq(ordered[a], ordered[b]));
    }
    lemma_rows_among(ordered, r.playlists, i, j, q);
}

proof fn lemma_place_of_show(rows: Seq<tables::QueueRowView>, show_id: Seq<char>)
    ensures
        runner::place_of_show(rows, show_id) matches Some(i) ==> i < rows.len()
            && rows[i as int].show_id == show_id && forall|j: int|
            0 <= j < i ==> (#[trigger] rows[j]).show_id != show_id,
        runner::place_of_show(rows, show_id) is None ==> forall|j: int|
            0 <= j < rows.len() ==> (#[trigger] rows[j]).show_id != show_id,
    decreases rows.len(),
{
    if rows.len() > 0 {
        let front = rows.drop_last();
        lemma_place_of_show(front, show_id);
        match runner::place_of_show(front, show_id) {
            Some(i) => {
                assert(front[i as int] == rows[i as int]);
                assert forall|j: int| 0 <= j < i implies (#[trigger] rows[j]).show_id
                    != show_id by {
                    assert(front[j].show_id != show_id);
                }
            },
            None => {
                assert forall|j: int| 0 <= j < rows.len() - 1 implies (#[trigger] rows[j]).show_id
                    != show_id by {
                    assert(front[j].show_id != show_id);
                }
            },
        }
    }
}

/// Going to a show goes to the first row of the show that the player has, and is
/// refused if and only if the player has none. What was playing elsewhere waits again;
/// no other entry changes its state, and where it is refused nothing changes.
pub proof fn law_going_to_a_show(
    r: RunnerView,
    v: replica::LibraryView,
    show_id: Seq<char>,
    now: Seq<char>,
    q: int,
)
    requires
        0 <= q < v.queue.len(),
    ensures
        ({
            let rows = runner::shown_rows(r, v);
            let place = runner::place_of_show(rows, show_id);
            let w = runner::show_selected(r, v, show_id, now);
            let told = runner::selection_outcome(r, v, show_id);
            let there = exists|i: int|
                0 <= i < rows.len() && (#[trigger] rows[i]).show_id == show_id;
            &&& place is Some <==> there
            &&& place matches Some(i) ==> i < rows.len() && rows[i as int].show_id == show_id
                && forall|j: int| 0 <= j < i ==> (#[trigger] rows[j]).show_id != show_id
            &&& told.ok == there
            &&& there ==> told.status == "playing_selected_show"@ && told.message
                == "selected show "@ + show_id
            &&& !there ==> told.status == "show_not_in_round"@ && told.message == "show "@
                + show_id + " is not in the current round"@
            &&& !there ==> w == v
            &&& w.queue.len() == v.queue.len()
            &&& there && r.pos < rows.len() && r.pos != place->0 && rows[r.pos as int].state
                == "playing"@ ==> {
                &&& v.queue[q].episode_id == rows[r.pos as int].episode_id ==> w.queue[q].state
                    == "pending"@
                &&& v.queue[q].episode_id != rows[r.pos as int].episode_id ==> w.queue[q].state
                    == v.queue[q].state
            }
            &&& !(r.pos < rows.len() && r.pos != place->0 && rows[r.pos as int].state
                == "playing"@) ==> w == v
        }),
{
    let rows = runner::shown_rows(r, v);
    lemma_place_of_show(rows, show_id);
    match runner::place_of_show(rows, show_id) {
        Some(i) => {
            assert(rows[i as int].show_id == show_id);
        },
        None => {},
    }
}

// ── starting a round ────────────────────────────────────────────────────

/// Starting a round puts all its files in the player's playlist, in the order of the
/// round: the first replaces what was there, the others are appended. Only then does
/// the player go to the place where the round goes on, which is told as the round
/// that is on. The first round of all begins with what became of its files, and ends
/// with the request that the origin is due: a full sync where one waits, else a push
/// where the stored round has changed.
pub proof fn law_round_is_queued_in_its_order(
    round: Seq<rounds::RoundEntryView>,
    state: LoopState,
    report: filesync::ReportView,
    duration_ms: u64,
    queue_dirty: bool,
    i: int,
)
    ensures
        ({
            let s = runloop::files_step(round, state, report, duration_ms, queue_dirty);
            let first: int = if state.first_round {
                1
            } else {
                0
            };
            let n = round.len() as int;
            let asks = state.first_round && (state.background_sync || queue_dirty);
            &&& s.action is WaitForRoundEnd
            &&& !s.state.first_round
            &&& s.state.start == state.start
            &&& s.state.background_sync == state.background_sync
            &&& state.first_round ==> s.effects[0] is Progress
            &&& s.effects[first] == EffectView::FilesChecked(report)
            &&& 0 <= i < n ==> s.effects[first + 1 + i] == (EffectView::Play {
                path: round[i].local_path,
                mode: if i == 0 {
                    "replace"@
                } else {
                    "append-play"@
                },
            })
            &&& s.effects[first + 1 + n] == EffectView::SetPlaylistPos(state.start as nat)
            &&& s.effects[first + 2 + n] == EffectView::Round(state.start as nat)
            &&& !state.first_round ==> s.effects.len() == n + 3
            &&& state.first_round ==> s.effects[n + 4] is Progress
            &&& state.first_round && !asks ==> s.effects.len() == n + 5
            &&& asks ==> s.effects.len() == n + 6
            &&& asks && state.background_sync ==> s.effects[n + 5] is RequestFullSync
            &&& asks && !state.background_sync ==> s.effects[n + 5] is RequestPush
        }),
{
}

/// When the wait for the end of a round is over: a stop of the loop, or of the player
/// for any reason but an interruption, ends the loop, with nothing done. After an
/// interruption the round is loaded again, with nothing done. A round that ran out is
/// taken off the player; where something of it opened, it is pushed and the next is
/// loaded, and otherwise the loop parks.
pub proof fn law_end_of_the_wait(
    r: RunnerView,
    state: LoopState,
    waited: Result<(), PlayerShutdown>,
    stopped: bool,
)
    ensures
        ({
            let s = runloop::end_step(r, state, waited, stopped);
            let interrupted = waited is Err && waited->Err_0.0@ == "interrupted"@;
            &&& s.state == state
            &&& stopped || waited is Err && !interrupted ==> s.action is Stop && s.effects.len()
                == 0
            &&& !stopped && interrupted ==> s.action is LoadRound && s.effects.len() == 0
            &&& !stopped && waited is Ok && r.loaded_any ==> s.action is LoadRound
                && s.effects.len() == 2 && s.effects[0] is ClearPlaylist && s.effects[1]
                is RequestPush
            &&& !stopped && waited is Ok && !r.loaded_any ==> s.action is Park && s.effects.len()
                == 2 && s.effects[0] is ClearPlaylist && s.effects[1] is Failed
        }),
{
}

// ── loading a round ─────────────────────────────────────────────────────

/// Loading a round checks its files where there is one to play. Where there is none,
/// the loop parks and says so last; only on the first round of all, with a sync still
/// to come, does it ask the origin first, and then it looks once more without asking
/// again. A round that was picked anew is pushed, but for the first of all.
pub proof fn law_loading_plays_what_there_is(
    v: replica::LibraryView,
    playlists: Seq<Seq<char>>,
    state: LoopState,
)
    ensures
        ({
            let (round, pos) = runloop::next_to_play(v, playlists);
            let s = runloop::load_step(v, playlists, state);
            let t = runloop::retry_step(v, playlists, state);
            let is_new = rounds::stored_round(v, playlists).0.len() == 0 && round.len() > 0;
            &&& round.len() > 0 ==> s.action is CheckFiles && s.state.start == pos as usize
            &&& round.len() == 0 && state.first_round && state.background_sync ==> s.action
                is Reconcile && s.state == state && s.effects.len() == 1
            &&& round.len() == 0 && !(state.first_round && state.background_sync) ==> s.action
                is Park && s.effects.len() > 0 && s.effects.last() is Drained
            &&& s.state.first_round == state.first_round
            &&& s.state.background_sync == state.background_sync
            &&& (exists|i: int| 0 <= i < s.effects.len() && #[trigger] s.effects[i] is RequestPush)
                <==> is_new && !state.first_round
            &&& !(exists|i: int| 0 <= i < s.effects.len() && #[trigger] s.effects[i] is Play)
            &&& round.len() > 0 ==> t.action is CheckFiles && t.state.start == pos as usize
            &&& round.len() == 0 ==> t.action is Park && t.effects.len() > 0
                && t.effects.last() is Drained
            &&& !t.state.background_sync
            &&& t.state.first_round == state.first_round
        }),
{
    let s = runloop::load_step(v, playlists, state);
    let round = runloop::next_to_play(v, playlists).0;
    let before = runloop::loading_effects(v, playlists, state.first_round);
    let after = runloop::loaded_effects(round, state.first_round);
    assert(before.len() <= 1 && after.len() <= 2);
    if rounds::stored_round(v, playlists).0.len() == 0 && round.len() > 0 && !state.first_round {
        assert(s.effects[0] is RequestPush);
    }
}

/// A round that is put on is at its place from the start, with nothing of it playing,
/// deferred or opened yet; the playlists stay.
pub proof fn law_round_put_on_is_fresh(
    r: RunnerView,
    round: Seq<rounds::RoundEntryView>,
    pos: nat,
)
    requires
        pos < round.len(),
    ensures
        ({
            let t = runloop::round_on(r, round, pos);
            &&& t.selected() == Some(round[pos as int])
            &&& t.round == Some(round)
            &&& t.deferred.len() == 0
            &&& t.playing is None
            &&& !t.loaded_any
            &&& t.playlists == r.playlists
        }),
{
}

/// The loop starts with what the library has: it loads a round at once and leaves the
/// sync for later, and only an empty library is seeded first.
pub proof fn law_library_goes_before_the_origin(has_library: bool)
    ensures
        ({
            let s = runloop::startup(has_library);
            &&& s.action is LoadRound <==> has_library
            &&& s.action is Seed <==> !has_library
            &&& s.state.first_round
            &&& s.state.background_sync == has_library
            &&& s.state.start == 0
            &&& forall|i: int|
                0 <= i < s.effects.len() ==> !(#[trigger] s.effects[i] is RequestPush)
                    && !(s.effects[i] is RequestFullSync)
        }),
{
}

} // verus!
