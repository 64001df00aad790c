//! How the revision counts: one for each row that is written, up to its highest value.

use vstd::prelude::*;

use crate::browsing;
use crate::edits;
use crate::engine;
use crate::laws;
use crate::library;
use crate::queue;
use crate::replica;
use crate::tables;
use crate::tables::{EpisodeRow, Keyed, QueueRow, ShowRow};
use crate::watching;

verus! {

/// Whether the revision went up by a number, or to its highest value where there is
/// no room for that.
pub open spec fn is_raised(v: replica::LibraryView, w: replica::LibraryView, n: nat) -> bool {
    if v.revision + n > i64::MAX {
        w.revision == i64::MAX
    } else {
        w.revision == v.revision + n
    }
}

proof fn lemma_one_hit<T: Keyed>(rows: Seq<T::V>, key: Seq<char>, i: int)
    requires
        tables::distinct::<T>(rows),
    ensures
        0 <= i < rows.len() && T::key(rows[i]) == key ==> tables::hits::<T>(rows, key) == 1,
        (forall|j: int| 0 <= j < rows.len() ==> T::key(#[trigger] rows[j]) != key) ==> tables::hits::<
            T,
        >(rows, key) == 0,
    decreases rows.len(),
{
    if rows.len() > 0 {
        let front = rows.drop_last();
        let n = rows.len() - 1;
        assert(tables::distinct::<T>(front)) by {
            assert forall|a: int, b: int|
                #![trigger front[a], front[b]]
                0 <= a < b < front.len() implies T::key(front[a]) != T::key(front[b]) by {
                assert(T::key(rows[a]) != T::key(rows[b]));
            }
        }
        lemma_one_hit::<T>(front, key, i);
        assert(rows[n] == rows.last());
        if T::key(rows.last()) == key {
            assert forall|j: int| 0 <= j < front.len() implies T::key(#[trigger] front[j])
                != key by {
                assert(T::key(rows[j]) != T::key(rows[n]));
            }
            if 0 <= i < n && T::key(rows[i]) == key {
                assert(T::key(rows[i]) != T::key(rows[n]));
            }
        } else {
            if 0 <= i < n {
                assert(front[i] == rows[i]);
            }
            if forall|j: int| 0 <= j < rows.len() ==> T::key(#[trigger] rows[j]) != key {
                assert forall|j: int| 0 <= j < front.len() implies T::key(#[trigger] front[j])
                    != key by {
                    assert(T::key(rows[j]) != key);
                }
            }
        }
    }
}

/// Storing a resume point is one row, where one is stored; and so is deferring an
/// episode.
pub proof fn law_revision_of_an_episode(
    v: replica::LibraryView,
    show_id: Seq<char>,
    episode_id: Seq<char>,
    pos: Option<u64>,
    close: bool,
    now: Seq<char>,
    e: int,
)
    requires
        v.well_formed(),
        0 <= e < v.episodes.len(),
        v.episodes[e].id == episode_id,
    ensures
        ({
            let w = replica::resumed(v, episode_id, pos, close, now);
            let stored = v.episodes[e].resume_pos;
            let writes = stored is Some && pos is Some && !close || stored is Some && pos is None
                || stored is None && pos is Some;
            &&& writes ==> is_raised(v, w, 1)
            &&& !writes ==> w == v
        }),
        replica::defers(v, show_id, episode_id) ==> is_raised(
            v,
            replica::deferred(v, show_id, episode_id, now),
            1,
        ),
        !replica::defers(v, show_id, episode_id) ==> replica::deferred(v, show_id, episode_id, now)
            == v,
{
    assert(EpisodeRow::key(v.episodes[e]) == episode_id);
    lemma_one_hit::<EpisodeRow>(v.episodes, episode_id, e);
    crate::reading::law_resume_is_read_from_the_row(v, episode_id, e);
}

/// Editing a show and retiring it are one row each, where the library has the show and,
/// for an edit, something is given.
pub proof fn law_revision_of_a_show(
    v: replica::LibraryView,
    id: Seq<char>,
    name: Option<Seq<char>>,
    root_path: Option<Seq<char>>,
    playlist: Option<Seq<char>>,
    removed_at: Option<Seq<char>>,
    now: Seq<char>,
)
    requires
        v.well_formed(),
    ensures
        ({
            let has: nat = if exists|s: int|
                0 <= s < v.shows.len() && (#[trigger] v.shows[s]).id == id {
                1
            } else {
                0
            };
            let given = name is Some || root_path is Some || playlist is Some;
            &&& is_raised(v, replica::retired(v, id, removed_at, now), has)
            &&& given ==> is_raised(
                v,
                library::show_edited(v, id, name, root_path, playlist, now),
                has,
            )
            &&& !given ==> library::show_edited(v, id, name, root_path, playlist, now) == v
        }),
{
    lemma_show_hits(v, id);
}

proof fn lemma_show_hits(v: replica::LibraryView, id: Seq<char>)
    requires
        v.well_formed(),
    ensures
        tables::hits::<ShowRow>(v.shows, id) == if exists|s: int|
            0 <= s < v.shows.len() && (#[trigger] v.shows[s]).id == id {
            1nat
        } else {
            0nat
        },
{
    if exists|s: int| 0 <= s < v.shows.len() && (#[trigger] v.shows[s]).id == id {
        let s = choose|s: int| 0 <= s < v.shows.len() && (#[trigger] v.shows[s]).id == id;
        assert(ShowRow::key(v.shows[s]) == id);
        lemma_one_hit::<ShowRow>(v.shows, id, s);
    } else {
        assert forall|j: int| 0 <= j < v.shows.len() implies ShowRow::key(#[trigger] v.shows[j])
            != id by {
            assert(v.shows[j].id != id);
        }
        lemma_one_hit::<ShowRow>(v.shows, id, 0);
    }
}

/// Adding a show is one row for it and one for each of its episodes; a rescan is one
/// for each path that the show did not have.
pub proof fn law_revision_of_new_rows(
    v: replica::LibraryView,
    playlist: Seq<char>,
    name: Seq<char>,
    root_path: Seq<char>,
    paths: Seq<Seq<char>>,
    now: Seq<char>,
    show_id: Seq<char>,
    ids: Seq<Seq<char>>,
)
    ensures
        is_raised(
            v,
            library::show_added(v, playlist, name, root_path, paths, now, show_id, ids),
            1 + paths.len(),
        ),
        is_raised(
            v,
            library::rescanned(v, show_id, paths, now, ids),
            paths.filter(|p: Seq<char>| !browsing::has_path(v.episodes, show_id, p)).len(),
        ),
{
    browsing::law_new_paths_of_a_scan(v.episodes, show_id, paths);
}

/// A track choice is one row, unless it is the choice that is stored.
pub proof fn law_revision_of_a_choice(
    v: replica::LibraryView,
    episode_id: Seq<char>,
    value: Seq<char>,
    now: Seq<char>,
    i: int,
)
    requires
        v.well_formed(),
    ensures
        ({
            let w = replica::track_chosen(v, episode_id, replica::Track::Subtitle, value, now);
            let x = replica::track_chosen(v, episode_id, replica::Track::Audio, value, now);
            let mine = 0 <= i < v.preferences.len() && v.preferences[i].episode_id == episode_id;
            let none = forall|j: int|
                0 <= j < v.preferences.len() ==> (#[trigger] v.preferences[j]).episode_id
                    != episode_id;
            &&& mine && v.preferences[i].subtitle_track == Some(value) ==> w == v
            &&& mine && v.preferences[i].subtitle_track != Some(value) ==> is_raised(v, w, 1)
            &&& mine && v.preferences[i].audio_track == Some(value) ==> x == v
            &&& mine && v.preferences[i].audio_track != Some(value) ==> is_raised(v, x, 1)
            &&& none ==> is_raised(v, w, 1) && is_raised(v, x, 1)
        }),
{
    crate::reading::law_choices_are_read_from_the_row(v, episode_id, i);
}

proof fn lemma_playlist_hits(rows: Seq<tables::QueueRowView>, playlist: Seq<char>)
    ensures
        queue::playlist_hits(rows, playlist) == rows.filter(
            |r: tables::QueueRowView| r.playlist == playlist,
        ).len(),
    decreases rows.len(),
{
    reveal(Seq::filter);
    if rows.len() > 0 {
        lemma_playlist_hits(rows.drop_last(), playlist);
    }
}

proof fn lemma_restated_playlist(
    rows: Seq<tables::QueueRowView>,
    episode_id: Seq<char>,
    state: Seq<char>,
    playlist: Seq<char>,
    now: Seq<char>,
)
    ensures
        queue::playlist_hits(queue::rows_in_state(rows, episode_id, state, now), playlist)
            == queue::playlist_hits(rows, playlist),
    decreases rows.len(),
{
    let set = queue::rows_in_state(rows, episode_id, state, now);
    if rows.len() > 0 {
        let front = rows.drop_last();
        lemma_restated_playlist(front, episode_id, state, playlist, now);
        assert(set.drop_last() =~= queue::rows_in_state(front, episode_id, state, now));
    }
}

/// Saving a round is one for each row that it replaces and one for each that it
/// stores. Setting an entry's state is one for the entry, where the round has it, and
/// one for each row of the playlist. Taking an entry out is one for the entry and one
/// for each row of its playlist that stays.
pub proof fn law_revision_of_the_round(
    v: replica::LibraryView,
    entries: Seq<queue::StoredEntryView>,
    episode_id: Seq<char>,
    state: Seq<char>,
    playlist: Seq<char>,
    now: Seq<char>,
    q: int,
)
    requires
        v.well_formed(),
    ensures
        is_raised(
            v,
            queue::round_saved(v, entries, now),
            v.queue.len() + entries.len(),
        ),
        0 <= q < v.queue.len() && v.queue[q].episode_id == episode_id ==> is_raised(
            v,
            queue::entry_in_state(v, episode_id, state, playlist, now),
            1 + v.queue.filter(|r: tables::QueueRowView| r.playlist == playlist).len(),
        ),
        (forall|j: int|
            0 <= j < v.queue.len() ==> (#[trigger] v.queue[j]).episode_id != episode_id)
            ==> is_raised(
            v,
            queue::entry_in_state(v, episode_id, state, playlist, now),
            v.queue.filter(|r: tables::QueueRowView| r.playlist == playlist).len(),
        ),
        0 <= q < v.queue.len() && v.queue[q].episode_id == episode_id ==> is_raised(
            v,
            queue::entry_removed(v, episode_id, now),
            1 + edits::rows_of_others(v.queue, episode_id).filter(
                |r: tables::QueueRowView| r.playlist == v.queue[q].playlist,
            ).len(),
        ),
{
    lemma_playlist_hits(v.queue, playlist);
    lemma_restated_playlist(v.queue, episode_id, state, playlist, now);
    if 0 <= q < v.queue.len() && v.queue[q].episode_id == episode_id {
        assert(QueueRow::key(v.queue[q]) == episode_id);
        lemma_one_hit::<QueueRow>(v.queue, episode_id, q);
        crate::reading::law_entry_is_read_from_the_row(v, episode_id, q);
        edits::lemma_queue_is_filtered(v.queue, episode_id);
        lemma_others_and_hits(v.queue, episode_id);
        lemma_playlist_hits(edits::rows_of_others(v.queue, episode_id), v.queue[q].playlist);
    }
    if forall|j: int| 0 <= j < v.queue.len() ==> (#[trigger] v.queue[j]).episode_id != episode_id {
        assert forall|j: int| 0 <= j < v.queue.len() implies QueueRow::key(#[trigger] v.queue[j])
            != episode_id by {
            assert(v.queue[j].episode_id != episode_id);
        }
        lemma_one_hit::<QueueRow>(v.queue, episode_id, 0);
    }
}

proof fn lemma_others_and_hits(rows: Seq<tables::QueueRowView>, episode_id: Seq<char>)
    ensures
        queue::queue_without(rows, episode_id).len() + tables::hits::<QueueRow>(rows, episode_id)
            == rows.len(),
    decreases rows.len(),
{
    if rows.len() > 0 {
        lemma_others_and_hits(rows.drop_last(), episode_id);
    }
}

/// Marking a show unwatched is one row for the show, where the library has it, one for
/// each of its episodes and one for each of its plays.
pub proof fn law_revision_of_unwatching(v: replica::LibraryView, show_id: Seq<char>, now: Seq<char>)
    requires
        v.well_formed(),
    ensures
        ({
            let has: nat = if exists|s: int|
                0 <= s < v.shows.len() && (#[trigger] v.shows[s]).id == show_id {
                1
            } else {
                0
            };
            is_raised(
                v,
                library::show_unwatched(v, show_id, now),
                has + v.episodes.filter(|r: tables::EpisodeRowView| r.show_id == show_id).len()
                    + v.history.filter(|h: tables::HistoryEntryView| h.show_id == show_id).len(),
            )
        }),
{
    lemma_show_hits(v, show_id);
    crate::counting::law_episodes_are_counted(v.episodes, show_id);
    lemma_plays_left_out(v.history, show_id);
}

proof fn lemma_plays_left_out(rows: Seq<tables::HistoryEntryView>, show_id: Seq<char>)
    ensures
        library::history_without(rows, show_id).len() + rows.filter(
            |h: tables::HistoryEntryView| h.show_id == show_id,
        ).len() == rows.len(),
    decreases rows.len(),
{
    reveal(Seq::filter);
    if rows.len() > 0 {
        lemma_plays_left_out(rows.drop_last(), show_id);
    }
}

proof fn lemma_plays_raise(
    v: replica::LibraryView,
    plays: Seq<engine::HistoryRowView>,
    now: Seq<char>,
    ids: Seq<Seq<char>>,
    forget_resume: bool,
)
    requires
        v.well_formed(),
        forall|k: int|
            0 <= k < plays.len() ==> has_episode(v, (#[trigger] plays[k]).episode_id),
    ensures
        ({
            let w = replica::plays_stored(v, plays, now, ids, forget_resume);
            &&& is_raised(v, w, 2 * plays.len())
            &&& w.shows == v.shows
            &&& w.episodes.len() == v.episodes.len()
            &&& forall|e: int|
                0 <= e < v.episodes.len() ==> (#[trigger] w.episodes[e]).id == v.episodes[e].id
            &&& w.history.len() == v.history.len() + plays.len()
        }),
    decreases plays.len(),
{
    if plays.len() > 0 {
        let front = plays.drop_last();
        assert forall|k: int| 0 <= k < front.len() implies has_episode(
            v,
            (#[trigger] front[k]).episode_id,
        ) by {
            assert(has_episode(v, plays[k].episode_id));
        }
        lemma_plays_raise(v, front, now, ids, forget_resume);
        let u = replica::plays_stored(v, front, now, ids, forget_resume);
        let id = plays.last().episode_id;
        assert(has_episode(v, plays[plays.len() - 1].episode_id));
        let e = choose|e: int| 0 <= e < v.episodes.len() && (#[trigger] v.episodes[e]).id == id;
        assert(tables::distinct::<EpisodeRow>(u.episodes)) by {
            assert forall|a: int, b: int|
                #![trigger u.episodes[a], u.episodes[b]]
                0 <= a < b < u.episodes.len() implies EpisodeRow::key(u.episodes[a])
                != EpisodeRow::key(u.episodes[b]) by {
                assert(EpisodeRow::key(v.episodes[a]) != EpisodeRow::key(v.episodes[b]));
            }
        }
        assert(EpisodeRow::key(u.episodes[e]) == id);
        lemma_one_hit::<EpisodeRow>(u.episodes, id, e);
    }
}

/// Whether the library has an episode of the id.
spec fn has_episode(v: replica::LibraryView, id: Seq<char>) -> bool {
    exists|e: int| 0 <= e < v.episodes.len() && (#[trigger] v.episodes[e]).id == id
}

proof fn lemma_batches_raise(
    v: replica::LibraryView,
    batches: Seq<replica::ShowBatchView>,
    now: Seq<char>,
    ids: Seq<Seq<char>>,
)
    requires
        v.well_formed(),
    ensures
        ({
            let w = replica::batches_advanced(v, batches, now, ids);
            &&& w.history.len() >= v.history.len()
            &&& is_raised(
                v,
                w,
                (2 * (w.history.len() - v.history.len()) + replica::batches_drained(
                    v,
                    batches,
                    now,
                    ids,
                ).len()) as nat,
            )
        }),
    decreases batches.len(),
{
    if batches.len() > 0 {
        let front = batches.drop_last();
        let b = batches.last();
        let u = replica::batches_advanced(v, front, now, ids);
        let rest = ids.skip(u.history.len() - v.history.len());
        lemma_batches_raise(v, front, now, ids);
        laws::lemma_batches_keep_shows(v, front, now, ids);
        let plays = replica::plays_of(u, b.show_id, b.episode_ids, now);
        assert forall|k: int| 0 <= k < plays.len() implies has_episode(
            u,
            (#[trigger] plays[k]).episode_id,
        ) by {
            let e = watching::lemma_play_row(u, b.show_id, b.episode_ids, now, k);
            assert(u.episodes[e].id == plays[k].episode_id);
        }
        lemma_plays_raise(u, plays, now, rest, true);
        if replica::show_drains(u, b.show_id, b.episode_ids, now) {
            tables::lemma_place::<ShowRow>(u.shows, b.show_id);
            let s = tables::place::<ShowRow>(u.shows, b.show_id)->0;
            lemma_one_hit::<ShowRow>(u.shows, b.show_id, s);
        }
    }
}

/// An advance is two rows for each play that it records, the episode's and the play's,
/// and one for each show that it finishes.
pub proof fn law_revision_of_an_advance(
    v: replica::LibraryView,
    entries: Seq<(Seq<char>, Seq<char>)>,
    now: Seq<char>,
    ids: Seq<Seq<char>>,
)
    requires
        v.well_formed(),
    ensures
        ({
            let w = replica::advanced(v, entries, now, ids);
            let finished = replica::batches_drained(v, replica::batches_of(entries), now, ids);
            is_raised(
                v,
                w,
                (2 * (w.history.len() - v.history.len()) + finished.len()) as nat,
            )
        }),
{
    lemma_batches_raise(v, replica::batches_of(entries), now, ids);
}

/// Marking a show watched is two rows for each episode that was left, and one for the
/// show, where the library has it.
pub proof fn law_revision_of_watching_a_show(
    v: replica::LibraryView,
    show_id: Seq<char>,
    now: Seq<char>,
    ids: Seq<Seq<char>>,
)
    requires
        v.well_formed(),
    ensures
        ({
            let has: nat = if exists|s: int|
                0 <= s < v.shows.len() && (#[trigger] v.shows[s]).id == show_id {
                1
            } else {
                0
            };
            is_raised(
                v,
                library::show_watched(v, show_id, now, ids),
                2 * edits::left_to_watch(v.episodes, show_id).len() + has,
            )
        }),
{
    let plays = library::unwatched_plays(v.episodes, show_id, now);
    let left = edits::left_to_watch(v.episodes, show_id);
    edits::lemma_plays_are_what_is_left(v.episodes, show_id, now);
    lemma_show_hits(v, show_id);
    assert forall|k: int| 0 <= k < plays.len() implies has_episode(
        v,
        (#[trigger] plays[k]).episode_id,
    ) by {
        edits::lemma_left_is_filtered(v.episodes, show_id, left[k]);
        assert(left.contains(left[k]));
        let e = choose|e: int| 0 <= e < v.episodes.len() && v.episodes[e] == left[k];
        assert(v.episodes[e].id == plays[k].episode_id);
    }
    lemma_plays_raise(v, plays, now, ids, false);
}

} // verus!
