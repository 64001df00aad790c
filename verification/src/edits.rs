//! What the edits of the library come to, row by row: what each field of a row
//! holds afterwards, and which rows stay as they were.

use vstd::prelude::*;

use crate::engine;
use crate::laws;
use crate::library;
use crate::queue;
use crate::replica;
use crate::rounds;
use crate::tables;
use crate::tables::{EpisodeRow, Keyed, PreferenceRow, QueueRow, QueueStamp, ShowRow};
use crate::watching;

verus! {

// ── shows ───────────────────────────────────────────────────────────────

/// An edit sets exactly the fields that were given, on the rows of the show and no
/// others; what was not given, and when the show came and went, stays.
pub proof fn law_edit_sets_what_is_given(
    v: replica::LibraryView,
    id: Seq<char>,
    name: Option<Seq<char>>,
    root_path: Option<Seq<char>>,
    playlist: Option<Seq<char>>,
    now: Seq<char>,
    s: int,
)
    requires
        0 <= s < v.shows.len(),
    ensures
        ({
            let w = library::show_edited(v, id, name, root_path, playlist, now);
            let old_row = v.shows[s];
            let row = w.shows[s];
            &&& w.shows.len() == v.shows.len()
            &&& w.episodes == v.episodes
            &&& w.history == v.history
            &&& w.queue == v.queue
            &&& w.preferences == v.preferences
            &&& row.id == old_row.id
            &&& row.date_added == old_row.date_added
            &&& row.removed_at == old_row.removed_at
            &&& old_row.id != id ==> row == old_row
            &&& name is None ==> row.name == old_row.name
            &&& root_path is None ==> row.root_path == old_row.root_path
            &&& playlist is None ==> row.playlist == old_row.playlist
            &&& old_row.id == id ==> {
                &&& name is Some ==> row.name == name->0 && row.updated_at == now
                &&& root_path is Some ==> row.root_path == root_path->0 && row.updated_at == now
                &&& playlist is Some ==> row.playlist == playlist->0 && row.updated_at == now
            }
            &&& name is None && root_path is None && playlist is None ==> row == old_row
        }),
{
}

/// Retiring a show, or taking that back, sets when it was retired on its rows, and
/// changes nothing else of them and nothing else in the library.
pub proof fn law_retiring_sets_the_time(
    v: replica::LibraryView,
    id: Seq<char>,
    removed_at: Option<Seq<char>>,
    now: Seq<char>,
    s: int,
)
    requires
        0 <= s < v.shows.len(),
    ensures
        ({
            let w = replica::retired(v, id, removed_at, now);
            let old_row = v.shows[s];
            let row = w.shows[s];
            &&& w.shows.len() == v.shows.len()
            &&& w.episodes == v.episodes
            &&& w.history == v.history
            &&& w.queue == v.queue
            &&& w.preferences == v.preferences
            &&& row.id == old_row.id
            &&& row.playlist == old_row.playlist
            &&& row.name == old_row.name
            &&& row.root_path == old_row.root_path
            &&& row.date_added == old_row.date_added
            &&& old_row.id == id ==> row.removed_at == removed_at && row.updated_at == now
            &&& old_row.id != id ==> row == old_row
        }),
{
}

// ── resume points ───────────────────────────────────────────────────────

/// A resume point is stored as it is given, except where one is stored that is
/// close to it or where there was none and none is given: then nothing is written.
/// Nothing else of the episode's row changes, and no other row.
pub proof fn law_resume_is_stored(
    v: replica::LibraryView,
    episode_id: Seq<char>,
    pos: Option<u64>,
    close: bool,
    now: Seq<char>,
    e: int,
)
    requires
        v.well_formed(),
        0 <= e < v.episodes.len(),
    ensures
        ({
            let w = replica::resumed(v, episode_id, pos, close, now);
            let old_row = v.episodes[e];
            let row = w.episodes[e];
            &&& w.episodes.len() == v.episodes.len()
            &&& w.shows == v.shows
            &&& w.history == v.history
            &&& w.queue == v.queue
            &&& w.preferences == v.preferences
            &&& row.id == old_row.id
            &&& row.show_id == old_row.show_id
            &&& row.relative_path == old_row.relative_path
            &&& row.position == old_row.position
            &&& row.watched_at == old_row.watched_at
            &&& old_row.id != episode_id ==> row == old_row
            &&& old_row.id == episode_id && pos is None ==> row.resume_pos is None
            &&& old_row.id == episode_id && pos is Some && (old_row.resume_pos is None || !close)
                ==> row.resume_pos == pos && row.updated_at == now
            &&& old_row.id == episode_id && pos is None && old_row.resume_pos is Some
                ==> row.updated_at == now
            &&& old_row.id == episode_id && pos is Some && old_row.resume_pos is Some && close
                ==> row == old_row
            &&& old_row.id == episode_id && pos is None && old_row.resume_pos is None ==> row
                == old_row
        }),
{
    tables::lemma_place::<EpisodeRow>(v.episodes, episode_id);
}

// ── whole shows ─────────────────────────────────────────────────────────

/// Whether a row is an unwatched episode of a show.
pub open spec fn is_left_to_watch(row: tables::EpisodeRowView, show_id: Seq<char>) -> bool {
    row.show_id == show_id && row.watched_at is None
}

/// Marking a show unwatched takes back, on every episode of it, that it was watched
/// and where it was left, and takes exactly the plays of the show out of the watch
/// history. The show is in the rounds again; other shows stay as they were.
pub proof fn law_unwatching_takes_back_the_show(
    v: replica::LibraryView,
    show_id: Seq<char>,
    now: Seq<char>,
    e: int,
    s: int,
)
    requires
        0 <= e < v.episodes.len(),
        0 <= s < v.shows.len(),
    ensures
        ({
            let w = library::show_unwatched(v, show_id, now);
            let old_row = v.episodes[e];
            let row = w.episodes[e];
            let old_show = v.shows[s];
            let show = w.shows[s];
            &&& w.episodes.len() == v.episodes.len()
            &&& w.shows.len() == v.shows.len()
            &&& w.queue == v.queue
            &&& w.preferences == v.preferences
            &&& row.id == old_row.id
            &&& row.show_id == old_row.show_id
            &&& row.relative_path == old_row.relative_path
            &&& row.position == old_row.position
            &&& old_row.show_id == show_id ==> row.watched_at is None && row.resume_pos is None
                && row.updated_at == now
            &&& old_row.show_id != show_id ==> row == old_row
            &&& old_show.id == show_id ==> show == (tables::ShowRowView {
                removed_at: None,
                updated_at: now,
                ..old_show
            })
            &&& old_show.id != show_id ==> show == old_show
            &&& w.history == v.history.filter(
                |h: tables::HistoryEntryView| h.show_id != show_id,
            )
        }),
{
    lemma_history_is_filtered(v.history, show_id);
}

proof fn lemma_history_is_filtered(rows: Seq<tables::HistoryEntryView>, show_id: Seq<char>)
    ensures
        library::history_without(rows, show_id) == rows.filter(
            |h: tables::HistoryEntryView| h.show_id != show_id,
        ),
    decreases rows.len(),
{
    reveal(Seq::filter);
    if rows.len() > 0 {
        lemma_history_is_filtered(rows.drop_last(), show_id);
    }
}

/// The rows that a show has left to watch, as the table lists them.
pub open spec fn left_to_watch(rows: Seq<tables::EpisodeRowView>, show_id: Seq<char>) -> Seq<
    tables::EpisodeRowView,
> {
    rows.filter(|r: tables::EpisodeRowView| is_left_to_watch(r, show_id))
}

pub(crate) proof fn lemma_plays_are_what_is_left(
    rows: Seq<tables::EpisodeRowView>,
    show_id: Seq<char>,
    now: Seq<char>,
)
    ensures
        ({
            let left = left_to_watch(rows, show_id);
            library::unwatched_plays(rows, show_id, now) == Seq::new(
                left.len(),
                |k: int|
                    engine::HistoryRowView {
                        show_id,
                        episode_id: left[k].id,
                        relative_path: left[k].relative_path,
                        played_at: now,
                    },
            )
        }),
    decreases rows.len(),
{
    reveal(Seq::filter);
    let left = left_to_watch(rows, show_id);
    if rows.len() > 0 {
        let front = rows.drop_last();
        lemma_plays_are_what_is_left(front, show_id, now);
        let before = left_to_watch(front, show_id);
        if is_left_to_watch(rows.last(), show_id) {
            assert(left == before.push(rows.last()));
        } else {
            assert(left == before);
        }
    }
    assert(library::unwatched_plays(rows, show_id, now) =~= Seq::new(
        left.len(),
        |k: int|
            engine::HistoryRowView {
                show_id,
                episode_id: left[k].id,
                relative_path: left[k].relative_path,
                played_at: now,
            },
    ));
}

pub(crate) proof fn lemma_left_is_filtered(
    rows: Seq<tables::EpisodeRowView>,
    show_id: Seq<char>,
    r: tables::EpisodeRowView,
)
    ensures
        left_to_watch(rows, show_id).contains(r) <==> rows.contains(r) && is_left_to_watch(
            r,
            show_id,
        ),
    decreases rows.len(),
{
    reveal(Seq::filter);
    if rows.len() > 0 {
        let front = rows.drop_last();
        let before = left_to_watch(front, show_id);
        lemma_left_is_filtered(front, show_id, r);
        assert(rows == front.push(rows.last()));
        vstd::seq_lib::lemma_seq_contains_after_push(front, rows.last(), r);
        vstd::seq_lib::lemma_seq_contains_after_push(before, rows.last(), r);
    }
}

/// The plays stored by hand: an episode keeps where it was left.
proof fn lemma_plays_by_hand(
    v: replica::LibraryView,
    plays: Seq<engine::HistoryRowView>,
    now: Seq<char>,
    ids: Seq<Seq<char>>,
    e: int,
    k: int,
)
    ensures
        ({
            let w = replica::plays_stored(v, plays, now, ids, false);
            &&& w.shows == v.shows
            &&& w.queue == v.queue
            &&& w.preferences == v.preferences
            &&& w.episodes.len() == v.episodes.len()
            &&& 0 <= e < v.episodes.len() ==> w.episodes[e] == if laws::is_played(
                plays,
                v.episodes[e].id,
            ) {
                tables::EpisodeRowView {
                    watched_at: Some(now),
                    updated_at: now,
                    ..v.episodes[e]
                }
            } else {
                v.episodes[e]
            }
            &&& w.history.len() == v.history.len() + plays.len()
            &&& 0 <= k < v.history.len() ==> w.history[k] == v.history[k]
            &&& 0 <= k < plays.len() ==> w.history[v.history.len() + k] == (
            tables::HistoryEntryView {
                id: ids[k],
                show_id: plays[k].show_id,
                episode_id: plays[k].episode_id,
                relative_path: Some(plays[k].relative_path),
                played_at: plays[k].played_at,
            })
        }),
    decreases plays.len(),
{
    if plays.len() > 0 {
        let front = plays.drop_last();
        lemma_plays_by_hand(v, front, now, ids, e, k);
        if 0 <= e < v.episodes.len() {
            let id = v.episodes[e].id;
            if laws::is_played(front, id) {
                let j = choose|j: int|
                    0 <= j < front.len() && (#[trigger] front[j]).episode_id == id;
                assert(plays[j].episode_id == id);
            }
            if plays.last().episode_id == id {
                assert(plays[plays.len() - 1].episode_id == id);
            }
            if laws::is_played(plays, id) {
                let j = choose|j: int|
                    0 <= j < plays.len() && (#[trigger] plays[j]).episode_id == id;
                if j < front.len() {
                    assert(front[j].episode_id == id);
                }
            }
        }
    }
}

/// Marking a show watched watches exactly its unwatched episodes, at that time;
/// those that were watched keep their time, and every episode keeps where it was
/// left. The show is retired. The watch history gets one play for each episode that
/// was left, in the order of the table, and keeps all it had.
pub proof fn law_watching_the_show_finishes_it(
    v: replica::LibraryView,
    show_id: Seq<char>,
    now: Seq<char>,
    ids: Seq<Seq<char>>,
    e: int,
    s: int,
    k: int,
)
    requires
        v.well_formed(),
    ensures
        ({
            let w = library::show_watched(v, show_id, now, ids);
            let left = left_to_watch(v.episodes, show_id);
            let had = v.history.len();
            &&& w.episodes.len() == v.episodes.len()
            &&& w.shows.len() == v.shows.len()
            &&& w.history.len() == had + left.len()
            &&& w.queue == v.queue
            &&& w.preferences == v.preferences
            &&& 0 <= e < v.episodes.len() && v.episodes[e].show_id == show_id
                && v.episodes[e].watched_at is None ==> w.episodes[e] == (tables::EpisodeRowView {
                watched_at: Some(now),
                updated_at: now,
                ..v.episodes[e]
            })
            &&& 0 <= e < v.episodes.len() && !(v.episodes[e].show_id == show_id
                && v.episodes[e].watched_at is None) ==> w.episodes[e] == v.episodes[e]
            &&& 0 <= s < v.shows.len() && v.shows[s].id == show_id ==> w.shows[s] == (
            tables::ShowRowView { removed_at: Some(now), updated_at: now, ..v.shows[s] })
            &&& 0 <= s < v.shows.len() && v.shows[s].id != show_id ==> w.shows[s] == v.shows[s]
            &&& 0 <= k < had ==> w.history[k] == v.history[k]
            &&& 0 <= k < left.len() ==> w.history[had + k] == (tables::HistoryEntryView {
                id: ids[k],
                show_id,
                episode_id: left[k].id,
                relative_path: Some(left[k].relative_path),
                played_at: now,
            })
        }),
{
    let plays = library::unwatched_plays(v.episodes, show_id, now);
    let left = left_to_watch(v.episodes, show_id);
    lemma_plays_are_what_is_left(v.episodes, show_id, now);
    lemma_plays_by_hand(v, plays, now, ids, e, k);
    if 0 <= e < v.episodes.len() {
        let row = v.episodes[e];
        lemma_left_is_filtered(v.episodes, show_id, row);
        assert(v.episodes.contains(row));
        if is_left_to_watch(row, show_id) {
            let j = choose|j: int| 0 <= j < left.len() && left[j] == row;
            assert(plays[j].episode_id == row.id);
        } else if laws::is_played(plays, row.id) {
            let j = choose|j: int|
                0 <= j < plays.len() && (#[trigger] plays[j]).episode_id == row.id;
            lemma_left_is_filtered(v.episodes, show_id, left[j]);
            assert(left.contains(left[j]));
            let d = choose|d: int| 0 <= d < v.episodes.len() && v.episodes[d] == left[j];
            lemma_one_row(v, d, e);
        }
    }
}

/// Two rows of one episode are one row.
proof fn lemma_one_row(v: replica::LibraryView, d: int, e: int)
    requires
        v.well_formed(),
        0 <= d < v.episodes.len(),
        0 <= e < v.episodes.len(),
        v.episodes[d].id == v.episodes[e].id,
    ensures
        d == e,
{
    if d < e {
        assert(EpisodeRow::key(v.episodes[d]) != EpisodeRow::key(v.episodes[e]));
    } else if e < d {
        assert(EpisodeRow::key(v.episodes[e]) != EpisodeRow::key(v.episodes[d]));
    }
}

// ── picked episodes ─────────────────────────────────────────────────────

/// Whether the library has an episode of the id that has a path.
pub open spec fn has_file(rows: Seq<tables::EpisodeRowView>, id: Seq<char>) -> bool {
    exists|e: int|
        0 <= e < rows.len() && (#[trigger] rows[e]).id == id && rows[e].relative_path.len() > 0
}

/// Each id that was picked with the id its play gets, without those that have no file.
pub open spec fn picked_with_files(
    rows: Seq<tables::EpisodeRowView>,
    episode_ids: Seq<Seq<char>>,
    ids: Seq<Seq<char>>,
) -> Seq<(Seq<char>, Seq<char>)> {
    Seq::new(episode_ids.len(), |i: int| (episode_ids[i], ids[i])).filter(
        |p: (Seq<char>, Seq<char>)| has_file(rows, p.0),
    )
}

proof fn lemma_picked_grow(
    rows: Seq<tables::EpisodeRowView>,
    episode_ids: Seq<Seq<char>>,
    ids: Seq<Seq<char>>,
)
    requires
        episode_ids.len() > 0,
    ensures
        ({
            let before = picked_with_files(rows, episode_ids.drop_last(), ids);
            picked_with_files(rows, episode_ids, ids) == if has_file(rows, episode_ids.last()) {
                before.push((episode_ids.last(), ids[episode_ids.len() - 1]))
            } else {
                before
            }
        }),
{
    reveal(Seq::filter);
    let all = Seq::new(episode_ids.len(), |i: int| (episode_ids[i], ids[i]));
    let front = episode_ids.drop_last();
    assert(all.drop_last() =~= Seq::new(front.len(), |i: int| (front[i], ids[i])));
}

/// Episodes that are picked by hand are watched from then on, whichever show they
/// are of: those with a file, each at that time and with where it was left kept;
/// every other row is as it was. Each of them, in the order of the picking, gets a
/// play of the show that was named, of its own path.
pub proof fn law_picked_episodes_are_watched(
    v: replica::LibraryView,
    show_id: Seq<char>,
    episode_ids: Seq<Seq<char>>,
    now: Seq<char>,
    ids: Seq<Seq<char>>,
    e: int,
    k: int,
)
    requires
        v.well_formed(),
    ensures
        ({
            let w = library::all_picked_marked(v, show_id, episode_ids, now, ids);
            let picked = picked_with_files(v.episodes, episode_ids, ids);
            let had = v.history.len();
            &&& w.shows == v.shows
            &&& w.queue == v.queue
            &&& w.preferences == v.preferences
            &&& w.episodes.len() == v.episodes.len()
            &&& 0 <= e < v.episodes.len() && episode_ids.contains(v.episodes[e].id)
                && v.episodes[e].relative_path.len() > 0 ==> w.episodes[e] == (
            tables::EpisodeRowView { watched_at: Some(now), updated_at: now, ..v.episodes[e] })
            &&& 0 <= e < v.episodes.len() && !(episode_ids.contains(v.episodes[e].id)
                && v.episodes[e].relative_path.len() > 0) ==> w.episodes[e] == v.episodes[e]
            &&& w.history.len() == had + picked.len()
            &&& 0 <= k < had ==> w.history[k] == v.history[k]
            &&& 0 <= k < picked.len() ==> {
                let h = w.history[had + k];
                &&& h.episode_id == picked[k].0
                &&& h.id == picked[k].1
                &&& h.show_id == show_id
                &&& h.played_at == now
                &&& 0 <= e < v.episodes.len() && v.episodes[e].id == picked[k].0
                    ==> h.relative_path == Some(v.episodes[e].relative_path)
            }
        }),
    decreases episode_ids.len(),
{
    reveal(Seq::filter);
    if episode_ids.len() == 0 {
        assert(picked_with_files(v.episodes, episode_ids, ids).len() == 0);
    } else {
        let front = episode_ids.drop_last();
        let id = episode_ids.last();
        let n = picked_with_files(v.episodes, front, ids).len();
        let before = library::all_picked_marked(v, show_id, front, now, ids);
        law_picked_episodes_are_watched(v, show_id, front, now, ids, e, k);
        lemma_picked_grow(v.episodes, episode_ids, ids);
        tables::lemma_place::<EpisodeRow>(before.episodes, id);
        assert forall|x: int| 0 <= x < v.episodes.len() implies (
        #[trigger] before.episodes[x]).id == v.episodes[x].id && before.episodes[x].relative_path
            == v.episodes[x].relative_path by {
            law_picked_episodes_are_watched(v, show_id, front, now, ids, x, k);
        }
        assert(episode_ids == front.push(id));
        if 0 <= e < v.episodes.len() {
            let row = v.episodes[e];
            if front.contains(row.id) {
                let j = choose|j: int| 0 <= j < front.len() && front[j] == row.id;
                assert(episode_ids[j] == row.id);
            }
            if row.id == id {
                assert(episode_ids[episode_ids.len() - 1] == row.id);
            }
            if episode_ids.contains(row.id) && row.id != id {
                let j = choose|j: int| 0 <= j < episode_ids.len() && episode_ids[j] == row.id;
                assert(front[j] == row.id);
            }
        }
        match tables::place::<EpisodeRow>(before.episodes, id) {
            Some(i) => {
                assert(EpisodeRow::key(before.episodes[i]) == id);
                assert(v.episodes[i].id == id);
                if v.episodes[i].relative_path.len() > 0 {
                    assert(has_file(v.episodes, id));
                } else if has_file(v.episodes, id) {
                    let d = choose|d: int|
                        0 <= d < v.episodes.len() && (#[trigger] v.episodes[d]).id == id
                            && v.episodes[d].relative_path.len() > 0;
                    lemma_one_row(v, d, i);
                }
                if 0 <= e < v.episodes.len() && v.episodes[e].id == id {
                    lemma_one_row(v, e, i);
                }
            },
            None => {
                if has_file(v.episodes, id) {
                    let d = choose|d: int|
                        0 <= d < v.episodes.len() && (#[trigger] v.episodes[d]).id == id
                            && v.episodes[d].relative_path.len() > 0;
                    assert(EpisodeRow::key(before.episodes[d]) == id);
                }
                if 0 <= e < v.episodes.len() && v.episodes[e].id == id {
                    assert(EpisodeRow::key(before.episodes[e]) == id);
                }
            },
        }
    }
}

// ── track choices ───────────────────────────────────────────────────────

/// Whether a track choice of an episode is stored.
pub open spec fn has_choice(
    rows: Seq<tables::PreferenceRowView>,
    episode_id: Seq<char>,
    subtitle_track: Option<Seq<char>>,
    audio_track: Option<Seq<char>>,
) -> bool {
    exists|i: int|
        0 <= i < rows.len() && (#[trigger] rows[i]).episode_id == episode_id
            && rows[i].subtitle_track == subtitle_track && rows[i].audio_track == audio_track
}

/// A subtitle choice is stored as it is given. The episode's audio choice stays, or
/// is still open where it never had a choice; other episodes' rows stay.
pub proof fn law_subtitle_choice_is_stored(
    v: replica::LibraryView,
    episode_id: Seq<char>,
    value: Seq<char>,
    now: Seq<char>,
    i: int,
)
    requires
        v.well_formed(),
    ensures
        ({
            let w = replica::track_chosen(v, episode_id, replica::Track::Subtitle, value, now);
            &&& w.shows == v.shows
            &&& w.episodes == v.episodes
            &&& w.history == v.history
            &&& w.queue == v.queue
            &&& v.preferences.len() <= w.preferences.len() <= v.preferences.len() + 1
            &&& 0 <= i < v.preferences.len() && v.preferences[i].episode_id != episode_id
                ==> w.preferences[i] == v.preferences[i]
            &&& 0 <= i < v.preferences.len() && v.preferences[i].episode_id == episode_id
                ==> w.preferences[i].episode_id == episode_id && w.preferences[i].subtitle_track
                == Some(value) && w.preferences[i].audio_track == v.preferences[i].audio_track
                && w.preferences.len() == v.preferences.len()
            &&& (forall|j: int|
                0 <= j < v.preferences.len() ==> (#[trigger] v.preferences[j]).episode_id
                    != episode_id) ==> has_choice(w.preferences, episode_id, Some(value), None)
        }),
{
    lemma_choice_is_stored(v, episode_id, replica::Track::Subtitle, value, now, i);
}

/// An audio choice is stored as it is given. The episode's subtitle choice stays, or
/// is still open where it never had a choice; other episodes' rows stay.
pub proof fn law_audio_choice_is_stored(
    v: replica::LibraryView,
    episode_id: Seq<char>,
    value: Seq<char>,
    now: Seq<char>,
    i: int,
)
    requires
        v.well_formed(),
    ensures
        ({
            let w = replica::track_chosen(v, episode_id, replica::Track::Audio, value, now);
            &&& w.shows == v.shows
            &&& w.episodes == v.episodes
            &&& w.history == v.history
            &&& w.queue == v.queue
            &&& v.preferences.len() <= w.preferences.len() <= v.preferences.len() + 1
            &&& 0 <= i < v.preferences.len() && v.preferences[i].episode_id != episode_id
                ==> w.preferences[i] == v.preferences[i]
            &&& 0 <= i < v.preferences.len() && v.preferences[i].episode_id == episode_id
                ==> w.preferences[i].episode_id == episode_id && w.preferences[i].audio_track
                == Some(value) && w.preferences[i].subtitle_track
                == v.preferences[i].subtitle_track && w.preferences.len() == v.preferences.len()
            &&& (forall|j: int|
                0 <= j < v.preferences.len() ==> (#[trigger] v.preferences[j]).episode_id
                    != episode_id) ==> has_choice(w.preferences, episode_id, None, Some(value))
        }),
{
    lemma_choice_is_stored(v, episode_id, replica::Track::Audio, value, now, i);
}

proof fn lemma_choice_is_stored(
    v: replica::LibraryView,
    episode_id: Seq<char>,
    track: replica::Track,
    value: Seq<char>,
    now: Seq<char>,
    i: int,
)
    requires
        v.well_formed(),
    ensures
        ({
            let w = replica::track_chosen(v, episode_id, track, value, now);
            let n = v.preferences.len() as int;
            &&& w.shows == v.shows
            &&& w.episodes == v.episodes
            &&& w.history == v.history
            &&& w.queue == v.queue
            &&& 0 <= i < n && v.preferences[i].episode_id != episode_id ==> w.preferences[i]
                == v.preferences[i]
            &&& 0 <= i < n && v.preferences[i].episode_id == episode_id ==> w.preferences.len()
                == n && w.preferences[i].episode_id == episode_id && w.preferences[i]
                == (tables::PreferenceRowView {
                updated_at: w.preferences[i].updated_at,
                ..replica::with_track(v.preferences[i], track, value, now)
            })
            &&& n <= w.preferences.len() <= n + 1
            &&& (forall|j: int|
                0 <= j < n ==> (#[trigger] v.preferences[j]).episode_id != episode_id)
                ==> w.preferences.len() == n + 1 && has_choice(
                w.preferences,
                episode_id,
                if track is Subtitle {
                    Some(value)
                } else {
                    None
                },
                if track is Audio {
                    Some(value)
                } else {
                    None
                },
            )
        }),
{
    let w = replica::track_chosen(v, episode_id, track, value, now);
    let n = v.preferences.len() as int;
    tables::lemma_place::<PreferenceRow>(v.preferences, episode_id);
    match tables::place::<PreferenceRow>(v.preferences, episode_id) {
        Some(k) => {
            assert(PreferenceRow::key(v.preferences[k]) == episode_id);
            if 0 <= i < n && v.preferences[i].episode_id == episode_id && i != k {
                assert(PreferenceRow::key(v.preferences[i]) == episode_id);
                if i < k {
                    assert(PreferenceRow::key(v.preferences[i]) != episode_id);
                } else {
                    assert(PreferenceRow::key(v.preferences[k]) != PreferenceRow::key(
                        v.preferences[i],
                    ));
                }
            }
        },
        None => {
            if 0 <= i < n {
                assert(PreferenceRow::key(v.preferences[i]) != episode_id);
            }
            assert(w.preferences[n].episode_id == episode_id);
        },
    }
}

// ── the stored round ────────────────────────────────────────────────────

/// Setting the state of an entry sets it on the entry's row and no other, and
/// stamps that row and the rows of the playlist; no entry changes its place, and
/// nothing but the stored round changes.
pub proof fn law_state_is_set_on_one_entry(
    v: replica::LibraryView,
    episode_id: Seq<char>,
    state: Seq<char>,
    playlist: Seq<char>,
    now: Seq<char>,
    q: int,
)
    requires
        0 <= q < v.queue.len(),
    ensures
        ({
            let w = queue::entry_in_state(v, episode_id, state, playlist, now);
            let old_row = v.queue[q];
            let row = w.queue[q];
            &&& w.queue.len() == v.queue.len()
            &&& w.shows == v.shows
            &&& w.episodes == v.episodes
            &&& w.history == v.history
            &&& w.preferences == v.preferences
            &&& row.episode_id == old_row.episode_id
            &&& row.show_id == old_row.show_id
            &&& row.play_order == old_row.play_order
            &&& row.playlist == old_row.playlist
            &&& old_row.episode_id == episode_id ==> row.state == state
            &&& old_row.episode_id != episode_id ==> row.state == old_row.state
            &&& old_row.episode_id == episode_id || old_row.playlist == playlist
                ==> row.updated_at == now && row.dirty == 0
            &&& old_row.episode_id != episode_id && old_row.playlist != playlist ==> row
                == old_row
        }),
{
}

/// Whether a playlist's round is stamped with a time.
pub open spec fn has_stamp(
    stamps: Seq<tables::QueueStampView>,
    playlist: Seq<char>,
    time: Seq<char>,
) -> bool {
    exists|i: int|
        0 <= i < stamps.len() && (#[trigger] stamps[i]).playlist == playlist
            && stamps[i].updated_at == time
}

proof fn lemma_stamped(
    stamps: Seq<tables::QueueStampView>,
    playlist: Seq<char>,
    time: Seq<char>,
    other: Seq<char>,
    t: Seq<char>,
)
    ensures
        has_stamp(queue::stamped(stamps, playlist, time), playlist, time),
        other != playlist ==> (has_stamp(queue::stamped(stamps, playlist, time), other, t)
            <==> has_stamp(stamps, other, t)),
{
    let after = queue::stamped(stamps, playlist, time);
    tables::lemma_place::<QueueStamp>(stamps, playlist);
    match tables::place::<QueueStamp>(stamps, playlist) {
        Some(k) => {
            assert(QueueStamp::key(stamps[k]) == playlist);
            assert(after[k].playlist == playlist);
        },
        None => {
            assert(after[stamps.len() as int].playlist == playlist);
        },
    }
    if other != playlist {
        if has_stamp(stamps, other, t) {
            let i = choose|i: int|
                0 <= i < stamps.len() && (#[trigger] stamps[i]).playlist == other
                    && stamps[i].updated_at == t;
            assert(after[i] == stamps[i]);
        }
        if has_stamp(after, other, t) {
            let i = choose|i: int|
                0 <= i < after.len() && (#[trigger] after[i]).playlist == other
                    && after[i].updated_at == t;
            assert(stamps[i] == after[i]);
        }
    }
}

proof fn lemma_all_stamped(
    stamps: Seq<tables::QueueStampView>,
    entries: Seq<queue::StoredEntryView>,
    time: Seq<char>,
    playlist: Seq<char>,
    t: Seq<char>,
)
    ensures
        (exists|i: int| 0 <= i < entries.len() && (#[trigger] entries[i]).4 == playlist)
            ==> has_stamp(queue::all_stamped(stamps, entries, time), playlist, time),
        (forall|i: int| 0 <= i < entries.len() ==> (#[trigger] entries[i]).4 != playlist) ==> (
        has_stamp(queue::all_stamped(stamps, entries, time), playlist, t) <==> has_stamp(
            stamps,
            playlist,
            t,
        )),
    decreases entries.len(),
{
    if entries.len() > 0 {
        let front = entries.drop_last();
        let before = queue::all_stamped(stamps, front, time);
        lemma_all_stamped(stamps, front, time, playlist, t);
        lemma_stamped(before, entries.last().4, time, playlist, t);
        lemma_stamped(before, entries.last().4, time, playlist, time);
        if exists|i: int| 0 <= i < entries.len() && (#[trigger] entries[i]).4 == playlist {
            let i = choose|i: int| 0 <= i < entries.len() && (#[trigger] entries[i]).4 == playlist;
            if i < front.len() {
                assert(front[i].4 == playlist);
            }
        } else {
            assert(entries[entries.len() - 1].4 != playlist);
            assert forall|i: int| 0 <= i < front.len() implies (#[trigger] front[i]).4
                != playlist by {
                assert(entries[i].4 != playlist);
            }
        }
    }
}

/// Saving a round replaces the stored one: its rows are the entries as they were
/// given, all stamped with the time. The playlists of the entries are stamped with
/// it too; stamps of other playlists stay, and nothing else changes.
pub proof fn law_saved_round_is_what_was_given(
    v: replica::LibraryView,
    entries: Seq<queue::StoredEntryView>,
    updated_at: Seq<char>,
    i: int,
    playlist: Seq<char>,
    t: Seq<char>,
)
    ensures
        ({
            let w = queue::round_saved(v, entries, updated_at);
            &&& w.shows == v.shows
            &&& w.episodes == v.episodes
            &&& w.history == v.history
            &&& w.preferences == v.preferences
            &&& w.queue.len() == entries.len()
            &&& 0 <= i < entries.len() ==> {
                &&& w.queue[i].episode_id == entries[i].0
                &&& w.queue[i].show_id == entries[i].1
                &&& w.queue[i].play_order == entries[i].2
                &&& w.queue[i].state == entries[i].3
                &&& w.queue[i].playlist == entries[i].4
                &&& w.queue[i].updated_at == updated_at
                &&& w.queue[i].dirty == 0
                &&& has_stamp(w.queue_stamps, entries[i].4, updated_at)
            }
            &&& (forall|j: int| 0 <= j < entries.len() ==> (#[trigger] entries[j]).4 != playlist)
                ==> (has_stamp(w.queue_stamps, playlist, t) <==> has_stamp(
                v.queue_stamps,
                playlist,
                t,
            ))
        }),
{
    lemma_all_stamped(v.queue_stamps, entries, updated_at, playlist, t);
    if 0 <= i < entries.len() {
        lemma_all_stamped(v.queue_stamps, entries, updated_at, entries[i].4, t);
    }
}

/// The rows of a round without those of an episode.
pub open spec fn rows_of_others(rows: Seq<tables::QueueRowView>, episode_id: Seq<char>) -> Seq<
    tables::QueueRowView,
> {
    rows.filter(|r: tables::QueueRowView| r.episode_id != episode_id)
}

pub(crate) proof fn lemma_queue_is_filtered(rows: Seq<tables::QueueRowView>, episode_id: Seq<char>)
    ensures
        queue::queue_without(rows, episode_id) == rows_of_others(rows, episode_id),
    decreases rows.len(),
{
    reveal(Seq::filter);
    if rows.len() > 0 {
        lemma_queue_is_filtered(rows.drop_last(), episode_id);
    }
}

/// Taking an entry out of the stored round takes out its row and no other: the
/// others keep their order, their places and their states, and those of the entry's
/// playlist are stamped, as is the playlist. Where no row is of the episode, nothing
/// changes.
pub proof fn law_removed_entry_is_gone(
    v: replica::LibraryView,
    episode_id: Seq<char>,
    now: Seq<char>,
    q: int,
    k: int,
)
    requires
        v.well_formed(),
    ensures
        ({
            let w = queue::entry_removed(v, episode_id, now);
            let kept = rows_of_others(v.queue, episode_id);
            &&& (forall|j: int|
                0 <= j < v.queue.len() ==> (#[trigger] v.queue[j]).episode_id != episode_id) ==> w
                == v
            &&& 0 <= q < v.queue.len() && v.queue[q].episode_id == episode_id ==> {
                &&& w.shows == v.shows
                &&& w.episodes == v.episodes
                &&& w.history == v.history
                &&& w.preferences == v.preferences
                &&& w.queue.len() == kept.len()
                &&& has_stamp(w.queue_stamps, v.queue[q].playlist, now)
                &&& 0 <= k < kept.len() && kept[k].playlist == v.queue[q].playlist ==> w.queue[k]
                    == (tables::QueueRowView { updated_at: now, dirty: 0, ..kept[k] })
                &&& 0 <= k < kept.len() && kept[k].playlist != v.queue[q].playlist ==> w.queue[k]
                    == kept[k]
            }
        }),
{
    lemma_queue_is_filtered(v.queue, episode_id);
    tables::lemma_place::<QueueRow>(v.queue, episode_id);
    if 0 <= q < v.queue.len() && v.queue[q].episode_id == episode_id {
        assert(QueueRow::key(v.queue[q]) == episode_id);
        let i = tables::place::<QueueRow>(v.queue, episode_id)->0;
        if i < q {
            assert(QueueRow::key(v.queue[i]) != QueueRow::key(v.queue[q]));
        } else if q < i {
            assert(QueueRow::key(v.queue[q]) != episode_id);
        }
        lemma_stamped(v.queue_stamps, v.queue[q].playlist, now, v.queue[q].playlist, now);
    }
    if forall|j: int|
        0 <= j < v.queue.len() ==> (#[trigger] v.queue[j]).episode_id != episode_id {
        match tables::place::<QueueRow>(v.queue, episode_id) {
            Some(i) => {
                assert(QueueRow::key(v.queue[i]) == episode_id);
                assert(v.queue[i].episode_id == episode_id);
            },
            None => {},
        }
    }
}

/// A new round is stored in its order: its entries are numbered from zero, and all
/// of them are to be played. Where there is no round, nothing changes.
pub proof fn law_new_round_is_stored_in_order(
    v: replica::LibraryView,
    playlists: Seq<Seq<char>>,
    now: Seq<char>,
    i: int,
)
    requires
        rounds::picked_round(v, playlists).len() <= i32::MAX,
    ensures
        ({
            let round = rounds::picked_round(v, playlists);
            let w = rounds::round_renewed(v, playlists, now);
            &&& round.len() == 0 ==> w == v
            &&& round.len() > 0 ==> w.queue.len() == round.len()
            &&& w.shows == v.shows
            &&& w.episodes == v.episodes
            &&& w.history == v.history
            &&& 0 <= i < round.len() ==> {
                &&& w.queue[i].episode_id == round[i].episode_id
                &&& w.queue[i].show_id == round[i].show_id
                &&& w.queue[i].playlist == round[i].playlist
                &&& w.queue[i].play_order == i
                &&& w.queue[i].state == "pending"@
                &&& w.queue[i].updated_at == now
            }
        }),
{
}

// ── new and deferred episodes ───────────────────────────────────────────

/// Whether a number is the position directly behind the episodes of a show: one above
/// the highest of theirs, and zero where there is none.
pub open spec fn is_directly_behind(
    rows: Seq<tables::EpisodeRowView>,
    show_id: Seq<char>,
    n: int,
) -> bool {
    &&& forall|e: int|
        0 <= e < rows.len() && (#[trigger] rows[e]).show_id == show_id ==> rows[e].position < n
    &&& (exists|e: int|
        0 <= e < rows.len() && (#[trigger] rows[e]).show_id == show_id && rows[e].position + 1
            == n) || n == 0 && forall|e: int|
        0 <= e < rows.len() ==> (#[trigger] rows[e]).show_id != show_id
}

pub(crate) proof fn lemma_position_behind(rows: Seq<tables::EpisodeRowView>, show_id: Seq<char>)
    ensures
        is_directly_behind(rows, show_id, library::position_behind(rows, show_id)),
        library::episode_count(rows, show_id) == 0 <==> forall|e: int|
            0 <= e < rows.len() ==> (#[trigger] rows[e]).show_id != show_id,
    decreases rows.len(),
{
    if rows.len() > 0 {
        let front = rows.drop_last();
        let n = rows.len() - 1;
        let p = library::position_behind(front, show_id);
        let q = library::position_behind(rows, show_id);
        lemma_position_behind(front, show_id);
        assert(rows[n] == rows.last());
        let some = library::episode_count(front, show_id) > 0;
        if some {
            let e = choose|e: int|
                0 <= e < front.len() && (#[trigger] front[e]).show_id == show_id
                    && front[e].position + 1 == p;
            assert(rows[e] == front[e]);
        }
        assert forall|e: int|
            0 <= e < rows.len() && (#[trigger] rows[e]).show_id == show_id implies rows[e].position
            < q by {
            if e < n {
                assert(front[e] == rows[e]);
            }
        }
        if rows.last().show_id == show_id {
            if rows.last().position >= p || !some {
                assert(rows[n].position + 1 == q);
            }
            assert(rows[n].show_id == show_id);
        } else if !some {
            assert forall|e: int| 0 <= e < rows.len() implies (#[trigger] rows[e]).show_id
                != show_id by {
                if e < n {
                    assert(front[e].show_id != show_id);
                }
            }
        }
    }
}

/// An episode that a rescan adds is unwatched and has no resume point, and the added
/// episodes take the positions directly behind those that the show had, one after the
/// other. Nothing but episodes is added.
pub proof fn law_added_episodes_follow_directly(
    v: replica::LibraryView,
    show_id: Seq<char>,
    paths: Seq<Seq<char>>,
    now: Seq<char>,
    ids: Seq<Seq<char>>,
    k: int,
) -> (first: int)
    requires
        library::rescan_fits(v, show_id, paths),
    ensures
        is_directly_behind(v.episodes, show_id, first),
        ({
            let w = library::rescanned(v, show_id, paths, now, ids);
            let n = v.episodes.len() as int;
            &&& w.shows == v.shows
            &&& w.history == v.history
            &&& w.queue == v.queue
            &&& w.preferences == v.preferences
            &&& n <= k < w.episodes.len() ==> {
                &&& w.episodes[k].position == first + k - n
                &&& w.episodes[k].watched_at is None
                &&& w.episodes[k].resume_pos is None
                &&& w.episodes[k].show_id == show_id
                &&& w.episodes[k].updated_at == now
            }
        }),
{
    lemma_position_behind(v.episodes, show_id);
    let first = library::position_behind(v.episodes, show_id);
    let n = v.episodes.len() as int;
    let w = library::rescanned(v, show_id, paths, now, ids);
    if n <= k < w.episodes.len() {
        assert(w.episodes[k].position == (first + k - n) as i64);
        lemma_behind_is_low(v.episodes, show_id, first);
    }
    first
}

proof fn lemma_behind_is_low(rows: Seq<tables::EpisodeRowView>, show_id: Seq<char>, n: int)
    requires
        is_directly_behind(rows, show_id, n),
    ensures
        i64::MIN < n,
{
    if exists|e: int|
        0 <= e < rows.len() && (#[trigger] rows[e]).show_id == show_id && rows[e].position + 1
            == n {
        let e = choose|e: int|
            0 <= e < rows.len() && (#[trigger] rows[e]).show_id == show_id && rows[e].position + 1
                == n;
        assert(rows[e].position >= i64::MIN);
    }
}

/// An episode that is deferred takes the position one above the highest of the show's
/// episodes and of zero.
pub proof fn law_deferred_episode_goes_directly_behind(
    v: replica::LibraryView,
    show_id: Seq<char>,
    episode_id: Seq<char>,
    now: Seq<char>,
    e: int,
    d: int,
)
    requires
        v.well_formed(),
        replica::defers(v, show_id, episode_id),
        replica::has_room_behind(v, show_id),
        0 <= e < v.episodes.len(),
        v.episodes[e].id == episode_id,
    ensures
        ({
            let row = replica::deferred(v, show_id, episode_id, now).episodes[e];
            &&& row.position >= 1
            &&& 0 <= d < v.episodes.len() && v.episodes[d].show_id == show_id ==> row.position
                > v.episodes[d].position
            &&& row.position == 1 || exists|x: int|
                0 <= x < v.episodes.len() && (#[trigger] v.episodes[x]).show_id == show_id
                    && v.episodes[x].position + 1 == row.position
        }),
{
    let s = replica::show_of(v, show_id)->0;
    let top = engine::highest_position(s.episodes);
    let row = replica::deferred(v, show_id, episode_id, now).episodes[e];
    lemma_highest(s.episodes);
    assert(row.position == top + 1);
    if 0 <= d < v.episodes.len() && v.episodes[d].show_id == show_id {
        tables::lemma_place::<ShowRow>(v.shows, show_id);
        let x = tables::place::<ShowRow>(v.shows, show_id)->0;
        assert(ShowRow::key(v.shows[x]) == show_id);
        assert(v.shows[x].id == show_id);
        let k = watching::lemma_row_in_show(v, d);
        assert(s.episodes[k].position <= top);
    }
    if top != 0 {
        let k = choose|k: int|
            0 <= k < s.episodes.len() && (#[trigger] s.episodes[k]).position == top;
        let x = watching::lemma_show_in_rows(v, show_id, k);
        assert(v.episodes[x].position + 1 == row.position);
    }
}

pub(crate) proof fn lemma_highest(eps: Seq<engine::EpisodeView>)
    ensures
        ({
            let top = engine::highest_position(eps);
            &&& top >= 0
            &&& forall|k: int| 0 <= k < eps.len() ==> (#[trigger] eps[k]).position <= top
            &&& top == 0 || exists|k: int|
                0 <= k < eps.len() && (#[trigger] eps[k]).position == top
        }),
    decreases eps.len(),
{
    if eps.len() > 0 {
        let front = eps.drop_last();
        let n = eps.len() - 1;
        lemma_highest(front);
        assert(eps[n] == eps.last());
        let h = engine::highest_position(front);
        if h != 0 {
            let k = choose|k: int| 0 <= k < front.len() && (#[trigger] front[k]).position == h;
            assert(eps[k] == front[k]);
        }
        assert forall|k: int| 0 <= k < eps.len() implies (#[trigger] eps[k]).position
            <= engine::highest_position(eps) by {
            if k < n {
                assert(front[k] == eps[k]);
            }
        }
    }
}

} // verus!
