//! What is played, told from the rows of the library: what a new round is made of,
//! what the entries of the stored round are, and what the player is told.

use vstd::prelude::*;
use vstd::utf8::*;

use crate::edits;
use crate::engine;
use crate::engine::Episode;
use crate::laws;
use crate::ordering;
use crate::outcomes;
use crate::paths;
use crate::queue;
use crate::replica;
use crate::rounds;
use crate::runloop;
use crate::runner;
use crate::runner::{EffectView, RunnerView};
use crate::sorting;
use crate::stats;
use crate::tables;
use crate::tables::{EpisodeRow, Keyed, PreferenceRow, QueueRow, ShowRow};
use crate::watching;

verus! {

// ── reading a show ──────────────────────────────────────────────────────

/// Whether an episode is what a row of the table holds.
pub open spec fn is_of_row(e: engine::EpisodeView, row: tables::EpisodeRowView) -> bool {
    &&& e.id == row.id
    &&& e.relative_path == row.relative_path
    &&& e.position == row.position
    &&& e.watched_at == row.watched_at
    &&& e.resume_pos == row.resume_pos
}

/// A show is read from its row, with its episodes in ascending order of their
/// positions: every row of the show is one of them, and each of them is a row of the
/// show.
pub proof fn law_show_is_read_from_its_rows(
    v: replica::LibraryView,
    s: int,
    e: int,
    i: int,
    j: int,
)
    requires
        v.well_formed(),
        0 <= s < v.shows.len(),
    ensures
        replica::show_of(v, v.shows[s].id) matches Some(t) && {
            &&& t.id == v.shows[s].id
            &&& t.name == v.shows[s].name
            &&& t.playlist == v.shows[s].playlist
            &&& t.root_path == v.shows[s].root_path
            &&& t.removed_at == v.shows[s].removed_at
            &&& t.date_added == v.shows[s].date_added
            &&& 0 <= e < v.episodes.len() && v.episodes[e].show_id == v.shows[s].id
                ==> exists|k: int|
                0 <= k < t.episodes.len() && is_of_row(#[trigger] t.episodes[k], v.episodes[e])
            &&& 0 <= i < t.episodes.len() ==> exists|d: int|
                0 <= d < v.episodes.len() && (#[trigger] v.episodes[d]).show_id == v.shows[s].id
                    && is_of_row(t.episodes[i], v.episodes[d])
            &&& 0 <= i < j < t.episodes.len() ==> t.episodes[i].position <= t.episodes[j].position
                && t.episodes[i].id != t.episodes[j].id
        },
{
    let id = v.shows[s].id;
    lemma_show_place(v, s);
    let raw = replica::episodes_in(v.episodes, id);
    let t = replica::assembled(v, v.shows[s]);
    sorting::lemma_in_order::<Episode>(raw);
    laws::lemma_show_episodes_distinct(v, id);
    if 0 <= e < v.episodes.len() && v.episodes[e].show_id == id {
        outcomes::lemma_episodes_in_has(v.episodes, id, e);
        assert(t.episodes.contains(replica::to_episode(v.episodes[e])));
        let k = choose|k: int|
            0 <= k < t.episodes.len() && t.episodes[k] == replica::to_episode(v.episodes[e]);
        assert(is_of_row(t.episodes[k], v.episodes[e]));
    }
    if 0 <= i < t.episodes.len() {
        assert(t.episodes.contains(t.episodes[i]));
        laws::lemma_episodes_in_rows(v.episodes, id, t.episodes[i]);
        let d = choose|d: int|
            0 <= d < v.episodes.len() && (#[trigger] v.episodes[d]).show_id == id
                && replica::to_episode(v.episodes[d]) == t.episodes[i];
        assert(is_of_row(t.episodes[i], v.episodes[d]));
    }
}

proof fn lemma_show_place(v: replica::LibraryView, s: int)
    requires
        v.well_formed(),
        0 <= s < v.shows.len(),
    ensures
        tables::place::<ShowRow>(v.shows, v.shows[s].id) == Some(s),
        replica::show_of(v, v.shows[s].id) == Some(replica::assembled(v, v.shows[s])),
{
    assert(ShowRow::key(v.shows[s]) == v.shows[s].id);
    assert forall|j: int| 0 <= j < s implies ShowRow::key(#[trigger] v.shows[j])
        != v.shows[s].id by {
        assert(ShowRow::key(v.shows[j]) != ShowRow::key(v.shows[s]));
    }
    tables::lemma_place_is::<ShowRow>(v.shows, v.shows[s].id, s);
}

// ── a new round ─────────────────────────────────────────────────────────

/// Whether a row is the next of its show to be watched: it is unwatched, and no
/// unwatched episode of the show has a lower position.
pub open spec fn is_next_to_watch(rows: Seq<tables::EpisodeRowView>, e: int) -> bool {
    &&& 0 <= e < rows.len()
    &&& rows[e].watched_at is None
    &&& forall|d: int|
        0 <= d < rows.len() && (#[trigger] rows[d]).show_id == rows[e].show_id
            && rows[d].watched_at is None ==> rows[e].position <= rows[d].position
}

/// Whether an entry of a round is of a show's row and an episode's row: the fields
/// that are read from the two.
pub open spec fn is_entry_of(
    entry: rounds::RoundEntryView,
    show: tables::ShowRowView,
    row: tables::EpisodeRowView,
) -> bool {
    &&& entry.show_id == show.id
    &&& entry.show_name == show.name
    &&& entry.playlist == show.playlist
    &&& entry.episode_id == row.id
    &&& entry.relative_path == row.relative_path
    &&& entry.position == row.position
    &&& entry.local_path == paths::local_path(show.name, row.relative_path)
    &&& entry.nas_absolute_path == ordering::joined(show.root_path, row.relative_path)
}

/// The rows that an episode of an assembled show and its place among the unwatched
/// come from.
proof fn lemma_next_row(v: replica::LibraryView, s: int, p: int) -> (e: int)
    requires
        v.well_formed(),
        0 <= s < v.shows.len(),
        outcomes::is_lowest_unwatched(replica::assembled(v, v.shows[s]).episodes, p),
    ensures
        is_next_to_watch(v.episodes, e),
        v.episodes[e].show_id == v.shows[s].id,
        replica::to_episode(v.episodes[e]) == replica::assembled(v, v.shows[s]).episodes[p],
{
    let id = v.shows[s].id;
    let t = replica::assembled(v, v.shows[s]);
    let raw = replica::episodes_in(v.episodes, id);
    sorting::lemma_in_order::<Episode>(raw);
    assert(t.episodes.contains(t.episodes[p]));
    laws::lemma_episodes_in_rows(v.episodes, id, t.episodes[p]);
    let e = choose|e: int|
        0 <= e < v.episodes.len() && (#[trigger] v.episodes[e]).show_id == id
            && replica::to_episode(v.episodes[e]) == t.episodes[p];
    assert forall|d: int|
        0 <= d < v.episodes.len() && (#[trigger] v.episodes[d]).show_id == id
            && v.episodes[d].watched_at is None implies v.episodes[e].position
        <= v.episodes[d].position by {
        outcomes::lemma_episodes_in_has(v.episodes, id, d);
        assert(t.episodes.contains(replica::to_episode(v.episodes[d])));
        let q = choose|q: int|
            0 <= q < t.episodes.len() && t.episodes[q] == replica::to_episode(v.episodes[d]);
        assert(t.episodes[q].watched_at is None);
    }
    e
}

/// Every entry of a new round is of a show that is not retired and is of one of the
/// playlists, and of the next episode of that show to be watched. Its key is that of
/// the episode's path under the show's folder.
pub proof fn law_new_round_entry_is_next_to_watch(
    v: replica::LibraryView,
    playlists: Seq<Seq<char>>,
    k: int,
) -> (rows: (int, int))
    requires
        v.well_formed(),
        0 <= k < rounds::picked_round(v, playlists).len(),
    ensures
        ({
            let (s, e) = rows;
            let entry = rounds::picked_round(v, playlists)[k];
            &&& 0 <= s < v.shows.len()
            &&& v.shows[s].removed_at is None
            &&& playlists.contains(v.shows[s].playlist)
            &&& is_next_to_watch(v.episodes, e)
            &&& v.episodes[e].show_id == v.shows[s].id
            &&& is_entry_of(entry, v.shows[s], v.episodes[e])
            &&& entry.order_value == ordering::order_value_of(entry.nas_absolute_path)
        }),
{
    let shows = replica::active_among(v, v.shows, playlists);
    let order = engine::round_of_shows(shows);
    let o = order[k];
    rounds::lemma_active_distinct(v, v.shows, playlists);
    outcomes::law_round_entry_is_the_lowest_unwatched(shows, k);
    let (i, p): (int, int) = choose|i: int, p: int|
        #![trigger shows[i].episodes[p]]
        0 <= i < shows.len() && shows[i].removed_at is None && outcomes::is_lowest_unwatched(
            shows[i].episodes,
            p,
        ) && o.show_id == shows[i].id && o.episode_id == shows[i].episodes[p].id
            && o.absolute_path == ordering::joined(
            shows[i].root_path,
            shows[i].episodes[p].relative_path,
        ) && o.order_value == ordering::order_value_of(o.absolute_path);
    let s = lemma_active_show_row(v, v.shows, playlists, i);
    rounds::lemma_order_resolves(shows, k);
    let m = rounds::show_named(shows, o.show_id)->0;
    if m < i {
        assert(shows[m].id != shows[i].id);
    } else if i < m {
        assert(shows[i].id != shows[m].id);
    }
    let e = lemma_next_row(v, s, p);
    lemma_show_place(v, s);
    laws::lemma_show_episodes_distinct(v, v.shows[s].id);
    let eps = shows[i].episodes;
    assert forall|j: int| 0 <= j < p implies (#[trigger] eps[j]).id != o.episode_id by {
        assert(eps[j].id != eps[p].id);
    }
    engine::lemma_first_named_is(eps, o.episode_id, p);
    (s, e)
}

proof fn lemma_active_show_row(
    v: replica::LibraryView,
    rows: Seq<tables::ShowRowView>,
    playlists: Seq<Seq<char>>,
    i: int,
) -> (s: int)
    requires
        0 <= i < replica::active_among(v, rows, playlists).len(),
    ensures
        0 <= s < rows.len(),
        rows[s].removed_at is None,
        playlists.contains(rows[s].playlist),
        replica::active_among(v, rows, playlists)[i] == replica::assembled(v, rows[s]),
    decreases rows.len(),
{
    let front = rows.drop_last();
    if rows.last().removed_at is None && playlists.contains(rows.last().playlist) && i
        == replica::active_among(v, front, playlists).len() {
        rows.len() - 1
    } else {
        let s = lemma_active_show_row(v, front, playlists, i);
        assert(front[s] == rows[s]);
        s
    }
}

proof fn lemma_row_is_active(
    v: replica::LibraryView,
    rows: Seq<tables::ShowRowView>,
    playlists: Seq<Seq<char>>,
    s: int,
) -> (i: int)
    requires
        0 <= s < rows.len(),
        rows[s].removed_at is None,
        playlists.contains(rows[s].playlist),
    ensures
        0 <= i < replica::active_among(v, rows, playlists).len(),
        replica::active_among(v, rows, playlists)[i] == replica::assembled(v, rows[s]),
    decreases rows.len(),
{
    let front = rows.drop_last();
    if s == rows.len() - 1 {
        replica::active_among(v, front, playlists).len() as int
    } else {
        assert(front[s] == rows[s]);
        lemma_row_is_active(v, front, playlists, s)
    }
}

/// Every show that is not retired, is of one of the playlists and has an unwatched
/// episode is in a new round.
pub proof fn law_show_with_something_left_is_in_the_new_round(
    v: replica::LibraryView,
    playlists: Seq<Seq<char>>,
    s: int,
    e: int,
) -> (k: int)
    requires
        v.well_formed(),
        0 <= s < v.shows.len(),
        v.shows[s].removed_at is None,
        playlists.contains(v.shows[s].playlist),
        0 <= e < v.episodes.len(),
        v.episodes[e].show_id == v.shows[s].id,
        v.episodes[e].watched_at is None,
    ensures
        0 <= k < rounds::picked_round(v, playlists).len(),
        rounds::picked_round(v, playlists)[k].show_id == v.shows[s].id,
{
    let shows = replica::active_among(v, v.shows, playlists);
    let i = lemma_row_is_active(v, v.shows, playlists, s);
    let t = replica::assembled(v, v.shows[s]);
    let raw = replica::episodes_in(v.episodes, t.id);
    sorting::lemma_in_order::<Episode>(raw);
    outcomes::lemma_episodes_in_has(v.episodes, t.id, e);
    assert(t.episodes.contains(replica::to_episode(v.episodes[e])));
    let q = choose|q: int|
        0 <= q < t.episodes.len() && t.episodes[q] == replica::to_episode(v.episodes[e]);
    outcomes::law_active_show_is_in_the_round(shows, i, q);
    let (k, p): (int, int) = choose|k: int, p: int|
        #![trigger engine::round_of_shows(shows)[k], shows[i].episodes[p]]
        0 <= k < engine::round_of_shows(shows).len() && outcomes::is_lowest_unwatched(
            shows[i].episodes,
            p,
        ) && engine::round_of_shows(shows)[k].show_id == shows[i].id && engine::round_of_shows(
            shows,
        )[k].episode_id == shows[i].episodes[p].id;
    rounds::lemma_active_distinct(v, v.shows, playlists);
    rounds::lemma_order_resolves(shows, k);
    k
}

/// A new round plays in ascending order of its keys; where two keys are equal, in
/// the order of the episode ids, byte by byte. No show and no episode is in it twice.
pub proof fn law_new_round_ascends(
    v: replica::LibraryView,
    playlists: Seq<Seq<char>>,
    j: int,
    k: int,
)
    requires
        v.well_formed(),
        0 <= j < k < rounds::picked_round(v, playlists).len(),
    ensures
        ({
            let x = rounds::picked_round(v, playlists)[j];
            let y = rounds::picked_round(v, playlists)[k];
            &&& x.order_value <= y.order_value
            &&& x.order_value == y.order_value ==> outcomes::bytes_not_behind(
                encode_utf8(x.episode_id),
                encode_utf8(y.episode_id),
            )
            &&& x.show_id != y.show_id
            &&& x.episode_id != y.episode_id
        }),
{
    let shows = replica::active_among(v, v.shows, playlists);
    let order = engine::round_of_shows(shows);
    outcomes::law_round_ascends(Seq::empty(), shows);
    rounds::law_picked_round_is_distinct(v, playlists, j, k);
    rounds::lemma_active_distinct(v, v.shows, playlists);
    rounds::lemma_order_resolves(shows, j);
    rounds::lemma_order_resolves(shows, k);
    let a = shows[rounds::show_named(shows, order[j].show_id)->0];
    let b = shows[rounds::show_named(shows, order[k].show_id)->0];
    engine::lemma_first_named(a.episodes, order[j].episode_id);
    engine::lemma_first_named(b.episodes, order[k].episode_id);
}

// ── the stored round ────────────────────────────────────────────────────

/// Every entry of the stored round is read from a row of the round that is of one of
/// the playlists, and from the rows of its show and its episode; its number in the
/// order is the row's place.
pub proof fn law_stored_entry_is_read_from_its_rows(
    v: replica::LibraryView,
    playlists: Seq<Seq<char>>,
    k: int,
) -> (rows: (int, int, int))
    requires
        v.well_formed(),
        0 <= k < rounds::stored_round(v, playlists).0.len(),
    ensures
        ({
            let (q, s, e) = rows;
            let entry = rounds::stored_round(v, playlists).0[k];
            &&& 0 <= q < v.queue.len()
            &&& 0 <= s < v.shows.len()
            &&& 0 <= e < v.episodes.len()
            &&& playlists.contains(v.queue[q].playlist)
            &&& v.queue[q].show_id == v.shows[s].id
            &&& v.queue[q].episode_id == v.episodes[e].id
            &&& v.episodes[e].show_id == v.shows[s].id
            &&& is_entry_of(entry, v.shows[s], v.episodes[e])
            &&& v.queue[q].play_order >= 0 ==> entry.order_value == v.queue[q].play_order
        }),
{
    let ordered = sorting::in_order::<QueueRow>(v.queue);
    sorting::lemma_in_order::<QueueRow>(v.queue);
    let m = outcomes::lemma_row_of_entry(v, ordered, playlists, k);
    let row = ordered[m];
    assert(ordered.contains(row));
    let q = choose|q: int| 0 <= q < v.queue.len() && v.queue[q] == row;
    tables::lemma_place::<ShowRow>(v.shows, row.show_id);
    let s = tables::place::<ShowRow>(v.shows, row.show_id)->0;
    assert(ShowRow::key(v.shows[s]) == row.show_id);
    let t = replica::assembled(v, v.shows[s]);
    engine::lemma_first_named(t.episodes, row.episode_id);
    let i = engine::first_named(t.episodes, row.episode_id)->0;
    sorting::lemma_in_order::<Episode>(replica::episodes_in(v.episodes, t.id));
    assert(t.episodes.contains(t.episodes[i]));
    laws::lemma_episodes_in_rows(v.episodes, t.id, t.episodes[i]);
    let e = choose|e: int|
        0 <= e < v.episodes.len() && (#[trigger] v.episodes[e]).show_id == t.id
            && replica::to_episode(v.episodes[e]) == t.episodes[i];
    (q, s, e)
}

/// What is played next is what is left of the stored round, from where it was left;
/// only where nothing is left of it is it a new round, from its start, and only then
/// is a round stored.
pub proof fn law_stored_round_goes_before_a_new_one(
    v: replica::LibraryView,
    playlists: Seq<Seq<char>>,
    now: Seq<char>,
)
    ensures
        ({
            let (round, pos) = runloop::next_to_play(v, playlists);
            let (stored, left) = rounds::stored_round(v, playlists);
            let w = runloop::after_loading(v, playlists, now);
            &&& stored.len() > 0 ==> round == stored && pos == left && w == v
            &&& stored.len() == 0 ==> round == rounds::picked_round(v, playlists) && pos == 0
            &&& w.shows == v.shows
            &&& w.episodes == v.episodes
            &&& w.history == v.history
            &&& w.preferences == v.preferences
        }),
{
}

/// A round's number is one above the lowest position in it, and above the last
/// number: it is the least number that is above both.
pub proof fn law_round_numbers_go_up(
    round: Seq<rounds::RoundEntryView>,
    last: Option<i64>,
    n: int,
    i: int,
)
    requires
        round.len() > 0,
    ensures
        ({
            let number = rounds::numbered(round, last);
            &&& last is Some ==> number > last->0
            &&& exists|k: int| 0 <= k < round.len() && number > (#[trigger] round[k]).position
            &&& (last is None || n > last->0) && 0 <= i < round.len() && n > round[i].position
                ==> number <= n
        }),
{
    lemma_lowest_position(round);
}

proof fn lemma_lowest_position(round: Seq<rounds::RoundEntryView>)
    requires
        round.len() > 0,
    ensures
        forall|i: int|
            0 <= i < round.len() ==> rounds::lowest_position(round) <= (
            #[trigger] round[i]).position,
        exists|i: int|
            0 <= i < round.len() && rounds::lowest_position(round) == (
            #[trigger] round[i]).position,
    decreases round.len(),
{
    if round.len() == 1 {
        assert(rounds::lowest_position(round) == round[0].position);
    } else {
        let front = round.drop_last();
        lemma_lowest_position(front);
        let k = choose|k: int|
            0 <= k < front.len() && rounds::lowest_position(front) == (
            #[trigger] front[k]).position;
        assert(round[k] == front[k]);
        let n = round.len() - 1;
        assert(round[n] == round.last());
        assert forall|i: int| 0 <= i < round.len() implies rounds::lowest_position(round) <= (
        #[trigger] round[i]).position by {
            if i < n {
                assert(front[i] == round[i]);
            }
        }
    }
}

// ── the player ──────────────────────────────────────────────────────────

/// What the player is told first, and only, of a thing that may be missing.
pub open spec fn told_of(e: Option<EffectView>) -> Seq<EffectView> {
    match e {
        Some(e) => seq![e],
        None => Seq::empty(),
    }
}

/// An episode that opens gets the subtitle track that was chosen for it, then the
/// audio track, and then is taken to where it was left. What was never chosen is not
/// told; a place within the first second, as the bits of a double give it, is not
/// gone to, and neither is one that is no number.
pub proof fn law_opening_restores_the_choices(
    v: replica::LibraryView,
    episode_id: Seq<char>,
    i: int,
    e: int,
)
    requires
        v.well_formed(),
        0 <= e < v.episodes.len(),
        v.episodes[e].id == episode_id,
    ensures
        ({
            let told = runner::opening_effects(v, episode_id);
            let seek = told_of(
                match v.episodes[e].resume_pos {
                    Some(bits) => if 0x3FF0_0000_0000_0000 < bits && bits
                        <= 0x7FF0_0000_0000_0000 {
                        Some(EffectView::SeekAbsolute(bits))
                    } else {
                        None
                    },
                    None => None,
                },
            );
            &&& 0 <= i < v.preferences.len() && v.preferences[i].episode_id == episode_id ==> told
                == told_of(
                match v.preferences[i].subtitle_track {
                    Some(t) => Some(EffectView::SetSub(t)),
                    None => None,
                },
            ) + told_of(
                match v.preferences[i].audio_track {
                    Some(t) => Some(EffectView::SetAudio(t)),
                    None => None,
                },
            ) + seek
            &&& (forall|j: int|
                0 <= j < v.preferences.len() ==> (#[trigger] v.preferences[j]).episode_id
                    != episode_id) ==> told == seek
        }),
{
    tables::lemma_place::<EpisodeRow>(v.episodes, episode_id);
    assert(EpisodeRow::key(v.episodes[e]) == episode_id);
    let d = tables::place::<EpisodeRow>(v.episodes, episode_id)->0;
    if d < e {
        assert(EpisodeRow::key(v.episodes[d]) != EpisodeRow::key(v.episodes[e]));
    }
    tables::lemma_place::<PreferenceRow>(v.preferences, episode_id);
    if 0 <= i < v.preferences.len() && v.preferences[i].episode_id == episode_id {
        assert(PreferenceRow::key(v.preferences[i]) == episode_id);
        let j = tables::place::<PreferenceRow>(v.preferences, episode_id)->0;
        if j < i {
            assert(PreferenceRow::key(v.preferences[j]) != PreferenceRow::key(v.preferences[i]));
        }
    }
    if forall|j: int|
        0 <= j < v.preferences.len() ==> (#[trigger] v.preferences[j]).episode_id != episode_id {
        match tables::place::<PreferenceRow>(v.preferences, episode_id) {
            Some(j) => {
                assert(PreferenceRow::key(v.preferences[j]) == episode_id);
                assert(v.preferences[j].episode_id == episode_id);
            },
            None => {},
        }
        assert(Seq::<EffectView>::empty() + Seq::<EffectView>::empty() =~= Seq::empty());
        let seek = match replica::resume_of(v, episode_id) {
            Some(bits) => if runner::past_start(bits) {
                seq![EffectView::SeekAbsolute(bits)]
            } else {
                Seq::empty()
            },
            None => Seq::empty(),
        };
        assert(Seq::<EffectView>::empty() + seek =~= seek);
    }
}

/// Where an episode is left is saved for the selected entry and no other, and only
/// where it is past the first second: otherwise, and where nothing is selected or the
/// player has no time, nothing is written. A point close to the stored one is not
/// written again.
pub proof fn law_place_is_saved_for_the_selected(
    r: RunnerView,
    v: replica::LibraryView,
    time_pos: Option<u64>,
    close: bool,
    now: Seq<char>,
    e: int,
)
    requires
        v.well_formed(),
        0 <= e < v.episodes.len(),
    ensures
        ({
            let w = runner::place_saved(r, v, time_pos, close, now);
            let old_row = v.episodes[e];
            let row = w.episodes[e];
            let counts = time_pos is Some && 0x3FF0_0000_0000_0000 < time_pos->0 && time_pos->0
                <= 0x7FF0_0000_0000_0000;
            &&& r.round is None || r.pos >= r.round->0.len() || !counts ==> w == v
            &&& w.episodes.len() == v.episodes.len()
            &&& w.shows == v.shows
            &&& w.history == v.history
            &&& w.queue == v.queue
            &&& r.round is Some && r.pos < r.round->0.len() && counts ==> {
                let id = r.round->0[r.pos as int].episode_id;
                &&& old_row.id != id ==> row == old_row
                &&& old_row.id == id && !(old_row.resume_pos is Some && close) ==> row == (
                tables::EpisodeRowView { resume_pos: time_pos, updated_at: now, ..old_row })
                &&& old_row.id == id && old_row.resume_pos is Some && close ==> row == old_row
            }
        }),
{
    if r.selected() is Some && time_pos is Some {
        edits::law_resume_is_stored(v, r.selected()->0.episode_id, time_pos, close, now, e);
    }
}

/// Skipping, and playing to the end, watch the episode of the entry and no other: it
/// is watched at that time and plays from its start from then on.
pub proof fn law_skipping_watches_the_selected(
    r: RunnerView,
    v: replica::LibraryView,
    now: Seq<char>,
    ids: Seq<Seq<char>>,
    e: int,
)
    requires
        v.well_formed(),
        0 <= e < v.episodes.len(),
    ensures
        ({
            let w = runner::skipped(r, v, now, ids);
            let c = r.round->0[r.pos as int];
            &&& r.round is None || r.pos >= r.round->0.len() ==> w == v
            &&& r.round is Some && r.pos < r.round->0.len() ==> is_watched_once(v, w, c, now, e)
        }),
        ({
            let w = runner::ended(r, v, now, ids);
            let c = r.playing->0;
            &&& r.playing is None ==> w == v
            &&& r.playing is Some && r.deferred.contains(c.episode_id) ==> w == v
            &&& r.playing is Some && !r.deferred.contains(c.episode_id) ==> is_watched_once(
                v,
                w,
                c,
                now,
                e,
            )
        }),
{
    if r.selected() is Some {
        lemma_watched_once(v, r.selected()->0, now, ids, e);
    }
    if r.playing is Some {
        lemma_watched_once(v, r.playing->0, now, ids, e);
    }
}

/// Whether a row is as it is after the episode of an entry was watched: watched where
/// it was unwatched and is the row of the entry's episode in the entry's show, and
/// otherwise as it was.
pub open spec fn is_watched_once(
    v: replica::LibraryView,
    w: replica::LibraryView,
    c: rounds::RoundEntryView,
    now: Seq<char>,
    e: int,
) -> bool {
    let is_it = v.episodes[e].id == c.episode_id && v.episodes[e].show_id == c.show_id
        && watching::has_show(v, c.show_id) && v.episodes[e].watched_at is None;
    &&& w.episodes.len() == v.episodes.len()
    &&& is_it ==> w.episodes[e] == (tables::EpisodeRowView {
        watched_at: Some(now),
        resume_pos: None,
        updated_at: now,
        ..v.episodes[e]
    })
    &&& !is_it ==> w.episodes[e] == v.episodes[e]
}

proof fn lemma_watched_once(
    v: replica::LibraryView,
    c: rounds::RoundEntryView,
    now: Seq<char>,
    ids: Seq<Seq<char>>,
    e: int,
)
    requires
        v.well_formed(),
        0 <= e < v.episodes.len(),
    ensures
        is_watched_once(v, runner::entries_watched(v, seq![c], now, ids), c, now, e),
{
    let one = seq![c];
    assert(one.drop_last() =~= Seq::empty());
    assert(one.last() == c);
    reveal_with_fuel(runner::states_set, 2);
    let set = runner::states_set(v, one, "watched"@, now);
    assert(set == queue::entry_in_state(v, c.episode_id, "watched"@, c.playlist, now));
    laws::law_round_changes_keep_keys(
        v,
        Seq::empty(),
        c.episode_id,
        "watched"@,
        c.playlist,
        now,
    );
    let pairs = runner::pairs_of(one);
    assert(pairs =~= seq![(c.show_id, c.episode_id)]);
    watching::law_advance_watches_the_named(set, pairs, now, ids, e);
    assert(pairs[0] == (c.show_id, c.episode_id));
    assert(watching::has_show(set, c.show_id) == watching::has_show(v, c.show_id));
}

proof fn lemma_states_set(
    v: replica::LibraryView,
    entries: Seq<rounds::RoundEntryView>,
    state: Seq<char>,
    now: Seq<char>,
)
    requires
        v.well_formed(),
    ensures
        ({
            let w = runner::states_set(v, entries, state, now);
            &&& w.well_formed()
            &&& w.shows == v.shows
            &&& w.episodes == v.episodes
            &&& w.history == v.history
            &&& w.preferences == v.preferences
        }),
    decreases entries.len(),
{
    if entries.len() > 0 {
        let front = entries.drop_last();
        lemma_states_set(v, front, state, now);
        laws::law_round_changes_keep_keys(
            runner::states_set(v, front, state, now),
            Seq::empty(),
            entries.last().episode_id,
            state,
            entries.last().playlist,
            now,
        );
    }
}

/// Watching entries watches the episode of each of them in its show, where it was
/// unwatched, and no other. What is told of it is how many plays that recorded, and
/// every show of which it watched an episode and left none, each once, with its
/// farewell.
pub proof fn law_watching_tells_what_it_did(
    v: replica::LibraryView,
    entries: Seq<rounds::RoundEntryView>,
    now: Seq<char>,
    ids: Seq<Seq<char>>,
    e: int,
    s: int,
    i: int,
    j: int,
)
    requires
        v.well_formed(),
    ensures
        ({
            let w = runner::entries_watched(v, entries, now, ids);
            let told = runner::watch_result(v, entries, now, ids);
            &&& told.advanced_count == w.history.len() - v.history.len()
            &&& w.episodes.len() == v.episodes.len()
            &&& 0 <= e < v.episodes.len() && is_unwatched_entry(v, entries, e) ==> w.episodes[e]
                == (tables::EpisodeRowView {
                watched_at: Some(now),
                resume_pos: None,
                updated_at: now,
                ..v.episodes[e]
            })
            &&& 0 <= e < v.episodes.len() && !is_unwatched_entry(v, entries, e) ==> w.episodes[e]
                == v.episodes[e]
            &&& 0 <= i < told.removed_shows.len() ==> told.removed_shows[i] == stats::farewell(
                w,
                told.removed_shows[i].id,
            ) && watching::has_show(v, told.removed_shows[i].id)
            &&& 0 <= i < j < told.removed_shows.len() ==> told.removed_shows[i].id
                != told.removed_shows[j].id
            &&& 0 <= s < v.shows.len() ==> ((exists|k: int|
                0 <= k < told.removed_shows.len() && (#[trigger] told.removed_shows[k]).id
                    == v.shows[s].id) <==> (exists|x: int|
                #[trigger] is_unwatched_entry(v, entries, x) && v.episodes[x].show_id
                    == v.shows[s].id) && watching::is_all_watched(w, v.shows[s].id))
        }),
{
    let set = runner::states_set(v, entries, "watched"@, now);
    let pairs = runner::pairs_of(entries);
    lemma_states_set(v, entries, "watched"@, now);
    let gone = replica::batches_drained(set, replica::batches_of(pairs), now, ids);
    let told = runner::watch_result(v, entries, now, ids);
    watching::law_advance_tells_what_it_finished(set, pairs, now, ids, s, i, j);
    assert forall|x: int| 0 <= x < v.episodes.len() implies #[trigger] is_unwatched_entry(
        v,
        entries,
        x,
    ) == watching::is_watched_by(set, pairs, x) by {
        lemma_entry_pair(v, entries, x);
        assert(watching::has_show(set, v.episodes[x].show_id) == watching::has_show(
            v,
            v.episodes[x].show_id,
        ));
    }
    if 0 <= e < v.episodes.len() {
        watching::law_advance_watches_the_named(set, pairs, now, ids, e);
    } else {
        lemma_advance_keeps_count(set, pairs, now, ids);
    }
    if 0 <= i < gone.len() {
        assert(watching::has_show(set, gone[i]) == watching::has_show(v, gone[i]));
    }
    if 0 <= s < v.shows.len() {
        let id = v.shows[s].id;
        if gone.contains(id) {
            let k = choose|k: int| 0 <= k < gone.len() && gone[k] == id;
            assert(told.removed_shows[k].id == id);
        }
        if exists|k: int|
            0 <= k < told.removed_shows.len() && (#[trigger] told.removed_shows[k]).id == id {
            let k = choose|k: int|
                0 <= k < told.removed_shows.len() && (#[trigger] told.removed_shows[k]).id == id;
            assert(gone[k] == id);
        }
        if exists|x: int|
            #[trigger] is_unwatched_entry(v, entries, x) && v.episodes[x].show_id == id {
            let x = choose|x: int|
                #[trigger] is_unwatched_entry(v, entries, x) && v.episodes[x].show_id == id;
            assert(watching::is_watched_by(set, pairs, x));
        }
        if exists|x: int|
            #[trigger] watching::is_watched_by(set, pairs, x) && set.episodes[x].show_id == id {
            let x = choose|x: int|
                #[trigger] watching::is_watched_by(set, pairs, x) && set.episodes[x].show_id == id;
            assert(is_unwatched_entry(v, entries, x));
        }
    }
}

proof fn lemma_advance_keeps_count(
    v: replica::LibraryView,
    pairs: Seq<(Seq<char>, Seq<char>)>,
    now: Seq<char>,
    ids: Seq<Seq<char>>,
)
    requires
        v.well_formed(),
    ensures
        replica::advanced(v, pairs, now, ids).episodes.len() == v.episodes.len(),
{
    laws::lemma_batches_keep_shows(v, replica::batches_of(pairs), now, ids);
}

/// Whether a row is the unwatched episode of one of the entries, in its show.
pub open spec fn is_unwatched_entry(
    v: replica::LibraryView,
    entries: Seq<rounds::RoundEntryView>,
    e: int,
) -> bool {
    &&& 0 <= e < v.episodes.len()
    &&& v.episodes[e].watched_at is None
    &&& watching::has_show(v, v.episodes[e].show_id)
    &&& exists|k: int|
        0 <= k < entries.len() && (#[trigger] entries[k]).show_id == v.episodes[e].show_id
            && entries[k].episode_id == v.episodes[e].id
}

proof fn lemma_entry_pair(
    v: replica::LibraryView,
    entries: Seq<rounds::RoundEntryView>,
    e: int,
)
    requires
        0 <= e < v.episodes.len(),
    ensures
        runner::pairs_of(entries).contains((v.episodes[e].show_id, v.episodes[e].id)) <==> exists|
            k: int,
        |
            0 <= k < entries.len() && (#[trigger] entries[k]).show_id == v.episodes[e].show_id
                && entries[k].episode_id == v.episodes[e].id,
{
    let pairs = runner::pairs_of(entries);
    let pair = (v.episodes[e].show_id, v.episodes[e].id);
    if pairs.contains(pair) {
        let k = choose|k: int| 0 <= k < pairs.len() && pairs[k] == pair;
        assert(entries[k].show_id == v.episodes[e].show_id);
    }
    if exists|k: int|
        0 <= k < entries.len() && (#[trigger] entries[k]).show_id == v.episodes[e].show_id
            && entries[k].episode_id == v.episodes[e].id {
        let k = choose|k: int|
            0 <= k < entries.len() && (#[trigger] entries[k]).show_id == v.episodes[e].show_id
                && entries[k].episode_id == v.episodes[e].id;
        assert(pairs[k] == pair);
    }
}

} // verus!
