//! What reading the library gives back of what was written to it.

use vstd::prelude::*;

use crate::engine;
use crate::engine::Episode;
use crate::library;
use crate::queue;
use crate::replica;
use crate::sorting;
use crate::sorting::Sortable;
use crate::tables;
use crate::tables::{EpisodeRow, Keyed, PreferenceRow, QueueRow, ShowRow};

verus! {

/// A resume point that was stored is the one that is read, and no other
/// episode's changes.
pub proof fn law_resume_reads_back(
    v: replica::LibraryView,
    episode_id: Seq<char>,
    pos: Option<u64>,
    close: bool,
    now: Seq<char>,
    other: Seq<char>,
)
    requires
        tables::place::<EpisodeRow>(v.episodes, episode_id) is Some,
        other != episode_id,
    ensures
        replica::resume_of(replica::resumed(v, episode_id, pos, close, now), episode_id)
            == if replica::same_resume(replica::resume_of(v, episode_id), pos, close) {
            replica::resume_of(v, episode_id)
        } else {
            pos
        },
        replica::resume_of(replica::resumed(v, episode_id, pos, close, now), other)
            == replica::resume_of(v, other),
{
    let rows = replica::rows_resumed(v.episodes, episode_id, pos, now);
    assert forall|i: int| 0 <= i < rows.len() implies EpisodeRow::key(#[trigger] rows[i])
        == EpisodeRow::key(v.episodes[i]) by {
    }
    tables::lemma_place_by_keys::<EpisodeRow>(v.episodes, rows, episode_id);
    tables::lemma_place_by_keys::<EpisodeRow>(v.episodes, rows, other);
    tables::lemma_place::<EpisodeRow>(v.episodes, episode_id);
    tables::lemma_place::<EpisodeRow>(v.episodes, other);
}

/// Watching an episode to its end forgets its resume point, so that stepping
/// back to it plays it from the start.
pub proof fn law_watched_episode_restarts(
    v: replica::LibraryView,
    episode_id: Seq<char>,
    now: Seq<char>,
)
    ensures
        replica::resume_of(replica::episode_marked(v, episode_id, now, true), episode_id) is None,
{
    let rows = replica::rows_watched(v.episodes, episode_id, now, true);
    assert forall|i: int| 0 <= i < rows.len() implies EpisodeRow::key(#[trigger] rows[i])
        == EpisodeRow::key(v.episodes[i]) by {
    }
    tables::lemma_place_by_keys::<EpisodeRow>(v.episodes, rows, episode_id);
    tables::lemma_place::<EpisodeRow>(v.episodes, episode_id);
}

/// A track choice that was stored is the one that is read; the episode's other
/// track and every other episode's choices stay as they were.
pub proof fn law_track_choice_reads_back(
    v: replica::LibraryView,
    episode_id: Seq<char>,
    track: replica::Track,
    value: Seq<char>,
    now: Seq<char>,
    other: Seq<char>,
)
    requires
        other != episode_id,
    ensures
        replica::preferences_of(
            replica::track_chosen(v, episode_id, track, value, now),
            episode_id,
        ) == match track {
            replica::Track::Subtitle => replica::PreferencesView {
                subtitle_track: Some(value),
                ..replica::preferences_of(v, episode_id)
            },
            replica::Track::Audio => replica::PreferencesView {
                audio_track: Some(value),
                ..replica::preferences_of(v, episode_id)
            },
        },
        replica::preferences_of(replica::track_chosen(v, episode_id, track, value, now), other)
            == replica::preferences_of(v, other),
{
    let w = replica::track_chosen(v, episode_id, track, value, now);
    let rows = v.preferences;
    tables::lemma_place::<PreferenceRow>(rows, episode_id);
    tables::lemma_place::<PreferenceRow>(rows, other);
    if w != v {
        match tables::place::<PreferenceRow>(rows, episode_id) {
            Some(i) => {
                assert forall|k: int| 0 <= k < rows.len() implies PreferenceRow::key(
                    #[trigger] w.preferences[k],
                ) == PreferenceRow::key(rows[k]) by {
                }
                tables::lemma_place_by_keys::<PreferenceRow>(rows, w.preferences, episode_id);
                tables::lemma_place_by_keys::<PreferenceRow>(rows, w.preferences, other);
            },
            None => {
                assert(w.preferences.drop_last() =~= rows);
            },
        }
    }
}

// ── shows ───────────────────────────────────────────────────────────────

/// A show's fields that were set are read as they were set.
pub proof fn law_edit_reads_back(
    v: replica::LibraryView,
    show_id: Seq<char>,
    name: Option<Seq<char>>,
    root_path: Option<Seq<char>>,
    playlist: Option<Seq<char>>,
    now: Seq<char>,
)
    ensures
        replica::show_of(
            library::show_edited(v, show_id, name, root_path, playlist, now),
            show_id,
        ) == match replica::show_of(v, show_id) {
            Some(s) => Some(
                engine::ShowView {
                    name: library::or_kept(name, s.name),
                    root_path: library::or_kept(root_path, s.root_path),
                    playlist: library::or_kept(playlist, s.playlist),
                    ..s
                },
            ),
            None => None,
        },
{
    let rows = library::rows_edited(v.shows, show_id, name, root_path, playlist, now);
    assert forall|i: int| 0 <= i < rows.len() implies ShowRow::key(#[trigger] rows[i])
        == ShowRow::key(v.shows[i]) by {
    }
    tables::lemma_place_by_keys::<ShowRow>(v.shows, rows, show_id);
    tables::lemma_place::<ShowRow>(v.shows, show_id);
}

/// The episodes of a show that was just added.
pub open spec fn new_episodes(paths: Seq<Seq<char>>, first: int, ids: Seq<Seq<char>>) -> Seq<
    engine::EpisodeView,
> {
    Seq::new(
        paths.len(),
        |i: int|
            engine::EpisodeView {
                id: ids[i],
                relative_path: paths[i],
                position: (first + i) as i64,
                watched_at: None,
                resume_pos: None,
            },
    )
}

proof fn lemma_episodes_in_appended(
    rows: Seq<tables::EpisodeRowView>,
    show_id: Seq<char>,
    paths: Seq<Seq<char>>,
    first: int,
    now: Seq<char>,
    ids: Seq<Seq<char>>,
)
    ensures
        replica::episodes_in(
            rows + library::new_rows(show_id, paths, first, now, ids),
            show_id,
        ) == replica::episodes_in(rows, show_id) + new_episodes(paths, first, ids),
    decreases paths.len(),
{
    let new = library::new_rows(show_id, paths, first, now, ids);
    let all = rows + new;
    if paths.len() == 0 {
        assert(all =~= rows);
        assert(new_episodes(paths, first, ids) =~= Seq::empty());
        assert(replica::episodes_in(rows, show_id) + new_episodes(paths, first, ids)
            =~= replica::episodes_in(rows, show_id));
    } else {
        let front = paths.drop_last();
        lemma_episodes_in_appended(rows, show_id, front, first, now, ids);
        assert(all.drop_last() =~= rows + library::new_rows(show_id, front, first, now, ids));
        assert(replica::episodes_in(rows, show_id) + new_episodes(paths, first, ids) =~= (
        replica::episodes_in(rows, show_id) + new_episodes(front, first, ids)).push(
            replica::to_episode(all.last()),
        ));
    }
}

proof fn lemma_no_episodes(rows: Seq<tables::EpisodeRowView>, show_id: Seq<char>)
    requires
        forall|i: int| 0 <= i < rows.len() ==> (#[trigger] rows[i]).show_id != show_id,
    ensures
        replica::episodes_in(rows, show_id) == Seq::<engine::EpisodeView>::empty(),
    decreases rows.len(),
{
    if rows.len() > 0 {
        let front = rows.drop_last();
        assert forall|i: int| 0 <= i < front.len() implies (#[trigger] front[i]).show_id
            != show_id by {
            assert(rows[i].show_id != show_id);
        }
        lemma_no_episodes(front, show_id);
        assert(rows[rows.len() - 1].show_id != show_id);
    }
}

/// A show that was added is read with its episodes in the order given, numbered
/// from zero and all unwatched: it is in the round at once.
pub proof fn law_added_show_reads_back(
    v: replica::LibraryView,
    playlist: Seq<char>,
    name: Seq<char>,
    root_path: Seq<char>,
    paths: Seq<Seq<char>>,
    now: Seq<char>,
    show_id: Seq<char>,
    ids: Seq<Seq<char>>,
)
    requires
        tables::place::<ShowRow>(v.shows, show_id) is None,
        forall|i: int|
            0 <= i < v.episodes.len() ==> (#[trigger] v.episodes[i]).show_id != show_id,
        paths.len() <= i64::MAX,
    ensures
        replica::show_of(
            library::show_added(v, playlist, name, root_path, paths, now, show_id, ids),
            show_id,
        ) == Some(
            engine::ShowView {
                id: show_id,
                playlist,
                name,
                root_path,
                episodes: new_episodes(paths, 0, ids),
                removed_at: None,
                date_added: Some(now),
            },
        ),
        paths.len() > 0 ==> engine::pick(new_episodes(paths, 0, ids)) == Some(
            new_episodes(paths, 0, ids)[0],
        ),
{
    let w = library::show_added(v, playlist, name, root_path, paths, now, show_id, ids);
    let eps = new_episodes(paths, 0, ids);
    assert(w.shows.drop_last() =~= v.shows);
    lemma_episodes_in_appended(v.episodes, show_id, paths, 0, now, ids);
    lemma_no_episodes(v.episodes, show_id);
    assert(Seq::<engine::EpisodeView>::empty() + eps =~= eps);
    assert forall|i: int, j: int|
        #![trigger eps[i], eps[j]]
        0 <= i < j < eps.len() implies Episode::leq(eps[i], eps[j]) by {
    }
    sorting::lemma_in_order_idempotent::<Episode>(eps);
    if paths.len() > 0 {
        assert(engine::is_pick(eps, 0));
        engine::lemma_pick_at(eps, 0);
    }
}

/// A retired show leaves the rounds, whatever its playlist; its rows and the
/// stored round stay.
pub proof fn law_retired_show_is_not_active(
    v: replica::LibraryView,
    show_id: Seq<char>,
    now: Seq<char>,
    playlists: Seq<Seq<char>>,
)
    ensures
        forall|k: int|
            0 <= k < replica::active_among(
                replica::retired(v, show_id, Some(now), now),
                replica::retired(v, show_id, Some(now), now).shows,
                playlists,
            ).len() ==> (#[trigger] replica::active_among(
                replica::retired(v, show_id, Some(now), now),
                replica::retired(v, show_id, Some(now), now).shows,
                playlists,
            )[k]).id != show_id,
        replica::retired(v, show_id, Some(now), now).episodes == v.episodes,
        replica::retired(v, show_id, Some(now), now).history == v.history,
        replica::retired(v, show_id, Some(now), now).queue == v.queue,
{
    let w = replica::retired(v, show_id, Some(now), now);
    lemma_active_rows(w, w.shows, playlists, show_id);
}

proof fn lemma_active_rows(
    v: replica::LibraryView,
    rows: Seq<tables::ShowRowView>,
    playlists: Seq<Seq<char>>,
    show_id: Seq<char>,
)
    requires
        forall|i: int|
            0 <= i < rows.len() && (#[trigger] rows[i]).id == show_id ==> rows[i].removed_at is Some,
    ensures
        forall|k: int|
            0 <= k < replica::active_among(v, rows, playlists).len() ==> (
            #[trigger] replica::active_among(v, rows, playlists)[k]).id != show_id,
    decreases rows.len(),
{
    if rows.len() > 0 {
        let front = rows.drop_last();
        assert forall|i: int|
            0 <= i < front.len() && (#[trigger] front[i]).id == show_id implies front[i].removed_at is Some by {
            assert(rows[i].id == show_id);
        }
        lemma_active_rows(v, front, playlists, show_id);
        let all = replica::active_among(v, rows, playlists);
        let some = replica::active_among(v, front, playlists);
        assert forall|k: int| 0 <= k < all.len() implies (#[trigger] all[k]).id != show_id by {
            if k < some.len() {
                assert(all[k] == some[k]);
            } else {
                assert(rows[rows.len() - 1].removed_at is None);
            }
        }
    }
}

/// The active shows are those rows that are not retired and are of one of the
/// playlists: nothing retired is among them, and none is missing.
pub proof fn law_active_shows(
    v: replica::LibraryView,
    rows: Seq<tables::ShowRowView>,
    playlists: Seq<Seq<char>>,
)
    ensures
        forall|s: engine::ShowView| #[trigger]
            replica::active_among(v, rows, playlists).contains(s) <==> exists|i: int|
                0 <= i < rows.len() && (#[trigger] rows[i]).removed_at is None
                    && playlists.contains(rows[i].playlist) && replica::assembled(v, rows[i]) == s,
    decreases rows.len(),
{
    let all = replica::active_among(v, rows, playlists);
    if rows.len() > 0 {
        let front = rows.drop_last();
        let some = replica::active_among(v, front, playlists);
        law_active_shows(v, front, playlists);
        assert forall|s: engine::ShowView| #[trigger] all.contains(s) <==> exists|i: int|
            0 <= i < rows.len() && (#[trigger] rows[i]).removed_at is None && playlists.contains(
                rows[i].playlist,
            ) && replica::assembled(v, rows[i]) == s by {
            if all.contains(s) {
                let k = choose|k: int| 0 <= k < all.len() && all[k] == s;
                if k < some.len() {
                    assert(some[k] == s);
                    assert(some.contains(s));
                    let i = choose|i: int|
                        0 <= i < front.len() && (#[trigger] front[i]).removed_at is None
                            && playlists.contains(front[i].playlist) && replica::assembled(
                            v,
                            front[i],
                        ) == s;
                    assert(rows[i].removed_at is None);
                } else {
                    assert(rows[rows.len() - 1].removed_at is None);
                }
            }
            if exists|i: int|
                0 <= i < rows.len() && (#[trigger] rows[i]).removed_at is None
                    && playlists.contains(rows[i].playlist) && replica::assembled(v, rows[i]) == s {
                let i = choose|i: int|
                    0 <= i < rows.len() && (#[trigger] rows[i]).removed_at is None
                        && playlists.contains(rows[i].playlist) && replica::assembled(v, rows[i])
                        == s;
                if i < front.len() {
                    assert(front[i].removed_at is None);
                    assert(some.contains(s));
                    let k = choose|k: int| 0 <= k < some.len() && some[k] == s;
                    assert(all[k] == s);
                } else {
                    assert(all[some.len() as int] == s);
                }
            }
        }
    }
}

// ── starting over ───────────────────────────────────────────────────────

spec fn started_over(e: engine::EpisodeView) -> engine::EpisodeView {
    engine::EpisodeView { watched_at: None, resume_pos: None, ..e }
}

proof fn lemma_episodes_in_reset(
    rows: Seq<tables::EpisodeRowView>,
    show_id: Seq<char>,
    now: Seq<char>,
)
    ensures
        replica::episodes_in(library::rows_reset(rows, show_id, now), show_id)
            == replica::episodes_in(rows, show_id).map_values(
            |e: engine::EpisodeView| started_over(e),
        ),
    decreases rows.len(),
{
    let f = |e: engine::EpisodeView| started_over(e);
    let after = library::rows_reset(rows, show_id, now);
    if rows.len() > 0 {
        lemma_episodes_in_reset(rows.drop_last(), show_id, now);
        assert(after.drop_last() =~= library::rows_reset(rows.drop_last(), show_id, now));
    }
    assert(replica::episodes_in(after, show_id) =~= replica::episodes_in(
        rows,
        show_id,
    ).map_values(f));
}

/// A show that was marked unwatched starts over: it is in the rounds again, no
/// episode of it is watched or has a resume point, and no play of it is recorded.
pub proof fn law_unwatched_show_starts_over(
    v: replica::LibraryView,
    show_id: Seq<char>,
    now: Seq<char>,
)
    requires
        replica::show_of(v, show_id) is Some,
    ensures
        replica::show_of(library::show_unwatched(v, show_id, now), show_id) matches Some(t) ==> {
            &&& t.removed_at is None
            &&& t.episodes.len() == replica::show_of(v, show_id)->0.episodes.len()
            &&& forall|i: int|
                0 <= i < t.episodes.len() ==> (#[trigger] t.episodes[i]).watched_at is None
                    && t.episodes[i].resume_pos is None
        },
        replica::show_of(library::show_unwatched(v, show_id, now), show_id) is Some,
        forall|h: tables::HistoryEntryView| #[trigger]
            library::show_unwatched(v, show_id, now).history.contains(h) ==> h.show_id != show_id,
{
    let w = library::show_unwatched(v, show_id, now);
    let f = |e: engine::EpisodeView| started_over(e);
    assert forall|i: int| 0 <= i < v.shows.len() implies ShowRow::key(#[trigger] w.shows[i])
        == ShowRow::key(v.shows[i]) by {
    }
    tables::lemma_place_by_keys::<ShowRow>(v.shows, w.shows, show_id);
    tables::lemma_place::<ShowRow>(v.shows, show_id);
    lemma_episodes_in_reset(v.episodes, show_id, now);
    sorting::lemma_in_order_map::<Episode>(replica::episodes_in(v.episodes, show_id), f);
    lemma_history_without_show(v.history, show_id);
}

proof fn lemma_history_without_show(rows: Seq<tables::HistoryEntryView>, show_id: Seq<char>)
    ensures
        forall|h: tables::HistoryEntryView| #[trigger]
            library::history_without(rows, show_id).contains(h) ==> h.show_id != show_id,
    decreases rows.len(),
{
    if rows.len() > 0 {
        let front = rows.drop_last();
        lemma_history_without_show(front, show_id);
        let kept = library::history_without(rows, show_id);
        let some = library::history_without(front, show_id);
        assert forall|h: tables::HistoryEntryView| #[trigger] kept.contains(h) implies h.show_id
            != show_id by {
            let k = choose|k: int| 0 <= k < kept.len() && kept[k] == h;
            if k < some.len() {
                assert(some[k] == h);
                assert(some.contains(h));
            }
        }
    }
}

// ── new episodes ────────────────────────────────────────────────────────

proof fn lemma_position_behind(rows: Seq<tables::EpisodeRowView>, show_id: Seq<char>)
    ensures
        forall|i: int|
            0 <= i < rows.len() && (#[trigger] rows[i]).show_id == show_id ==> rows[i].position
                < library::position_behind(rows, show_id),
        library::episode_count(rows, show_id) == 0 ==> forall|i: int|
            0 <= i < rows.len() ==> (#[trigger] rows[i]).show_id != show_id,
    decreases rows.len(),
{
    if rows.len() > 0 {
        let front = rows.drop_last();
        lemma_position_behind(front, show_id);
        assert forall|i: int|
            0 <= i < rows.len() && (#[trigger] rows[i]).show_id == show_id implies rows[i].position
            < library::position_behind(rows, show_id) by {
            if i < front.len() {
                assert(front[i].show_id == show_id);
            }
        }
        if library::episode_count(rows, show_id) == 0 {
            assert forall|i: int| 0 <= i < rows.len() implies (#[trigger] rows[i]).show_id
                != show_id by {
                if i < front.len() {
                    assert(front[i].show_id != show_id);
                }
            }
        }
    }
}

proof fn lemma_episode_row(
    rows: Seq<tables::EpisodeRowView>,
    show_id: Seq<char>,
    e: engine::EpisodeView,
)
    requires
        replica::episodes_in(rows, show_id).contains(e),
    ensures
        exists|i: int|
            0 <= i < rows.len() && (#[trigger] rows[i]).show_id == show_id && rows[i].position
                == e.position,
    decreases rows.len(),
{
    let all = replica::episodes_in(rows, show_id);
    let front = rows.drop_last();
    let some = replica::episodes_in(front, show_id);
    let k = choose|k: int| 0 <= k < all.len() && all[k] == e;
    if k < some.len() {
        assert(some[k] == e);
        assert(some.contains(e));
        lemma_episode_row(front, show_id, e);
        let i = choose|i: int|
            0 <= i < front.len() && (#[trigger] front[i]).show_id == show_id && front[i].position
                == e.position;
        assert(rows[i].show_id == show_id);
    } else {
        assert(rows[rows.len() - 1].show_id == show_id);
    }
}

/// Episodes that a rescan finds are appended behind all others of their show, in
/// the order of the scan, and never jump the queue: while an episode that was
/// there is unwatched, the show's pick is what it was.
pub proof fn law_rescan_appends(
    v: replica::LibraryView,
    show_id: Seq<char>,
    paths: Seq<Seq<char>>,
    now: Seq<char>,
    ids: Seq<Seq<char>>,
)
    requires
        library::rescan_fits(v, show_id, paths),
        replica::show_of(v, show_id) is Some,
    ensures
        ({
            let before = replica::show_of(v, show_id)->0;
            let after = replica::show_of(library::rescanned(v, show_id, paths, now, ids), show_id);
            let added = library::unknown_paths(paths, library::paths_in(v.episodes, show_id));
            let first = library::position_behind(v.episodes, show_id);
            &&& after == Some(
                engine::ShowView {
                    episodes: before.episodes + new_episodes(added, first, ids),
                    ..before
                },
            )
            &&& !engine::all_watched_spec(before.episodes) ==> engine::pick(after->0.episodes)
                == engine::pick(before.episodes)
        }),
{
    let x = library::rescanned(v, show_id, paths, now, ids);
    let added = library::unknown_paths(paths, library::paths_in(v.episodes, show_id));
    let first = library::position_behind(v.episodes, show_id);
    let new = new_episodes(added, first, ids);
    let raw = replica::episodes_in(v.episodes, show_id);
    tables::lemma_place::<ShowRow>(v.shows, show_id);
    lemma_episodes_in_appended(v.episodes, show_id, added, first, now, ids);
    lemma_position_behind(v.episodes, show_id);
    assert forall|i: int, j: int|
        #![trigger raw[i], new[j]]
        0 <= i < raw.len() && 0 <= j < new.len() implies Episode::leq(raw[i], new[j])
        && raw[i].position < new[j].position by {
        assert(raw.contains(raw[i]));
        lemma_episode_row(v.episodes, show_id, raw[i]);
        let k = choose|k: int|
            0 <= k < v.episodes.len() && (#[trigger] v.episodes[k]).show_id == show_id
                && v.episodes[k].position == raw[i].position;
        assert(v.episodes[k].position < first);
        lemma_first_is_bounded(v.episodes, show_id);
    }
    lemma_first_is_bounded(v.episodes, show_id);
    assert forall|i: int, j: int|
        #![trigger new[i], new[j]]
        0 <= i < j < new.len() implies Episode::leq(new[i], new[j]) by {
    }
    sorting::lemma_in_order_append::<Episode>(raw, new);
    let known = sorting::in_order::<Episode>(raw);
    sorting::lemma_in_order::<Episode>(raw);
    if !engine::all_watched_spec(known) {
        lemma_pick_before(known, new, raw);
    }
}

proof fn lemma_paths_in_appended(
    rows: Seq<tables::EpisodeRowView>,
    show_id: Seq<char>,
    paths: Seq<Seq<char>>,
    first: int,
    now: Seq<char>,
    ids: Seq<Seq<char>>,
)
    ensures
        library::paths_in(rows + library::new_rows(show_id, paths, first, now, ids), show_id)
            == library::paths_in(rows, show_id) + paths,
    decreases paths.len(),
{
    let all = rows + library::new_rows(show_id, paths, first, now, ids);
    if paths.len() == 0 {
        assert(all =~= rows);
        assert(library::paths_in(rows, show_id) + paths =~= library::paths_in(rows, show_id));
    } else {
        let front = paths.drop_last();
        lemma_paths_in_appended(rows, show_id, front, first, now, ids);
        assert(all.drop_last() =~= rows + library::new_rows(show_id, front, first, now, ids));
        assert(library::paths_in(rows, show_id) + paths =~= (library::paths_in(rows, show_id)
            + front).push(paths.last()));
    }
}

proof fn lemma_every_path_is_known_then(paths: Seq<Seq<char>>, known: Seq<Seq<char>>)
    ensures
        forall|p: Seq<char>| #[trigger]
            paths.contains(p) ==> (known + library::unknown_paths(paths, known)).contains(p),
    decreases paths.len(),
{
    if paths.len() > 0 {
        let front = paths.drop_last();
        lemma_every_path_is_known_then(front, known);
        let some = known + library::unknown_paths(front, known);
        let all = known + library::unknown_paths(paths, known);
        assert forall|p: Seq<char>| #[trigger] paths.contains(p) implies all.contains(p) by {
            let i = choose|i: int| 0 <= i < paths.len() && paths[i] == p;
            if i < front.len() {
                assert(front[i] == p);
                assert(front.contains(p));
                let k = choose|k: int| 0 <= k < some.len() && some[k] == p;
                assert(all[k] == p);
            } else if known.contains(p) {
                let k = choose|k: int| 0 <= k < known.len() && known[k] == p;
                assert(all[k] == p);
            } else {
                assert(all[all.len() - 1] == p);
            }
        }
    }
}

proof fn lemma_nothing_unknown(paths: Seq<Seq<char>>, known: Seq<Seq<char>>)
    requires
        forall|p: Seq<char>| #[trigger] paths.contains(p) ==> known.contains(p),
    ensures
        library::unknown_paths(paths, known).len() == 0,
    decreases paths.len(),
{
    if paths.len() > 0 {
        let front = paths.drop_last();
        assert(paths.contains(paths[paths.len() - 1]));
        assert forall|p: Seq<char>| #[trigger] front.contains(p) implies known.contains(p) by {
            let i = choose|i: int| 0 <= i < front.len() && front[i] == p;
            assert(paths[i] == p);
            assert(paths.contains(p));
        }
        lemma_nothing_unknown(front, known);
    }
}

/// A folder that is scanned once more with nothing new in it changes nothing: no
/// episode moves, whatever the order of the scan.
pub proof fn law_second_scan_changes_nothing(
    v: replica::LibraryView,
    show_id: Seq<char>,
    paths: Seq<Seq<char>>,
    now: Seq<char>,
    ids: Seq<Seq<char>>,
    later: Seq<char>,
    more: Seq<Seq<char>>,
)
    ensures
        ({
            let w = library::rescanned(v, show_id, paths, now, ids);
            library::rescanned(w, show_id, paths, later, more) == w
        }),
{
    let known = library::paths_in(v.episodes, show_id);
    let added = library::unknown_paths(paths, known);
    let w = library::rescanned(v, show_id, paths, now, ids);
    let x = library::rescanned(w, show_id, paths, later, more);
    lemma_paths_in_appended(
        v.episodes,
        show_id,
        added,
        library::position_behind(v.episodes, show_id),
        now,
        ids,
    );
    lemma_every_path_is_known_then(paths, known);
    lemma_nothing_unknown(paths, known + added);
    assert(x.episodes =~= w.episodes);
    assert(x == w);
}

proof fn lemma_first_is_bounded(rows: Seq<tables::EpisodeRowView>, show_id: Seq<char>)
    ensures
        i64::MIN < library::position_behind(rows, show_id) <= i64::MAX + 1,
    decreases rows.len(),
{
    if rows.len() > 0 {
        lemma_first_is_bounded(rows.drop_last(), show_id);
    }
}

proof fn lemma_pick_before(
    known: Seq<engine::EpisodeView>,
    new: Seq<engine::EpisodeView>,
    raw: Seq<engine::EpisodeView>,
)
    requires
        !engine::all_watched_spec(known),
        forall|y: engine::EpisodeView| #[trigger] known.contains(y) <==> raw.contains(y),
        forall|i: int, j: int|
            #![trigger raw[i], new[j]]
            0 <= i < raw.len() && 0 <= j < new.len() ==> raw[i].position < new[j].position,
    ensures
        engine::pick(known + new) == engine::pick(known),
{
    engine::lemma_pick_exists(known);
    let i = choose|i: int| engine::is_pick(known, i);
    engine::lemma_pick_at(known, i);
    let all = known + new;
    assert(known.contains(known[i]));
    let k = choose|k: int| 0 <= k < raw.len() && raw[k] == known[i];
    assert forall|j: int| 0 <= j < all.len() && (#[trigger] all[j]).watched_at is None implies all[i].position
        < all[j].position || (all[i].position == all[j].position && i <= j) by {
        if j < known.len() {
            assert(all[j] == known[j]);
        } else {
            assert(all[j] == new[j - known.len()]);
            assert(raw[k].position < new[j - known.len()].position);
        }
    }
    assert(engine::is_pick(all, i));
    engine::lemma_pick_at(all, i);
}

// ── deferring ───────────────────────────────────────────────────────────

/// Deferring changes nothing but the position of the one episode: nothing is
/// watched by it, no play is recorded, no show is retired, and the stored round
/// and every other row stay as they were.
pub proof fn law_defer_only_moves_one_row(
    v: replica::LibraryView,
    show_id: Seq<char>,
    episode_id: Seq<char>,
    now: Seq<char>,
)
    ensures
        replica::deferred(v, show_id, episode_id, now).shows == v.shows,
        replica::deferred(v, show_id, episode_id, now).history == v.history,
        replica::deferred(v, show_id, episode_id, now).queue == v.queue,
        replica::deferred(v, show_id, episode_id, now).preferences == v.preferences,
        replica::deferred(v, show_id, episode_id, now).episodes.len() == v.episodes.len(),
        forall|i: int|
            #![trigger replica::deferred(v, show_id, episode_id, now).episodes[i]]
            0 <= i < v.episodes.len() ==> {
                let r = replica::deferred(v, show_id, episode_id, now).episodes[i];
                &&& r == (tables::EpisodeRowView {
                    position: r.position,
                    updated_at: r.updated_at,
                    ..v.episodes[i]
                })
                &&& v.episodes[i].id != episode_id ==> r == v.episodes[i]
            },
        !replica::defers(v, show_id, episode_id) ==> replica::deferred(
            v,
            show_id,
            episode_id,
            now,
        ) == v,
{
}

// ── the stored round ────────────────────────────────────────────────────

/// A round that was saved in its order is read back as it was saved.
pub proof fn law_saved_round_reads_back(
    v: replica::LibraryView,
    entries: Seq<queue::StoredEntryView>,
    updated_at: Seq<char>,
)
    requires
        forall|i: int, j: int|
            #![trigger entries[i], entries[j]]
            0 <= i < j < entries.len() ==> entries[i].2 <= entries[j].2,
    ensures
        sorting::in_order::<QueueRow>(queue::round_saved(v, entries, updated_at).queue)
            == queue::queue_rows(entries, updated_at),
{
    let rows = queue::queue_rows(entries, updated_at);
    assert forall|i: int, j: int|
        #![trigger rows[i], rows[j]]
        0 <= i < j < rows.len() implies QueueRow::leq(rows[i], rows[j]) by {
        assert(entries[i].2 <= entries[j].2);
    }
    sorting::lemma_in_order_idempotent::<QueueRow>(rows);
}

/// Taking an entry out of the stored round leaves every other entry in it, with
/// its place and its state, and no entry of that episode.
pub proof fn law_removed_entry_leaves_the_rest(
    v: replica::LibraryView,
    episode_id: Seq<char>,
    now: Seq<char>,
)
    requires
        queue::entry_of(v, episode_id) is Some,
    ensures
        queue::entry_of(queue::entry_removed(v, episode_id, now), episode_id) is None,
        forall|q: tables::QueueRowView|
            v.queue.contains(q) && q.episode_id != episode_id ==> exists|i: int|
                0 <= i < queue::entry_removed(v, episode_id, now).queue.len() && (
                #[trigger] queue::entry_removed(v, episode_id, now).queue[i]) == (
                tables::QueueRowView {
                    updated_at: queue::entry_removed(v, episode_id, now).queue[i].updated_at,
                    dirty: queue::entry_removed(v, episode_id, now).queue[i].dirty,
                    ..q
                }),
{
    let w = queue::entry_removed(v, episode_id, now);
    let kept = queue::queue_without(v.queue, episode_id);
    lemma_kept_rows(v.queue, episode_id);
    tables::lemma_place::<QueueRow>(w.queue, episode_id);
    match tables::place::<QueueRow>(w.queue, episode_id) {
        Some(i) => {
            assert(kept.contains(kept[i]));
            assert(w.queue[i].episode_id == kept[i].episode_id);
        },
        None => {},
    }
    assert forall|q: tables::QueueRowView|
        v.queue.contains(q) && q.episode_id != episode_id implies exists|i: int|
        0 <= i < w.queue.len() && (#[trigger] w.queue[i]) == (tables::QueueRowView {
            updated_at: w.queue[i].updated_at,
            dirty: w.queue[i].dirty,
            ..q
        }) by {
        assert(kept.contains(q));
        let i = choose|i: int| 0 <= i < kept.len() && kept[i] == q;
        assert(w.queue[i] == (tables::QueueRowView {
            updated_at: w.queue[i].updated_at,
            dirty: w.queue[i].dirty,
            ..q
        }));
    }
}

proof fn lemma_kept_rows(rows: Seq<tables::QueueRowView>, episode_id: Seq<char>)
    ensures
        forall|q: tables::QueueRowView| #[trigger]
            queue::queue_without(rows, episode_id).contains(q) <==> rows.contains(q)
                && q.episode_id != episode_id,
    decreases rows.len(),
{
    if rows.len() > 0 {
        let kept = queue::queue_without(rows, episode_id);
        let front = rows.drop_last();
        let some = queue::queue_without(front, episode_id);
        lemma_kept_rows(front, episode_id);
        assert forall|q: tables::QueueRowView| #[trigger] kept.contains(q) <==> rows.contains(q)
            && q.episode_id != episode_id by {
            if kept.contains(q) {
                let k = choose|k: int| 0 <= k < kept.len() && kept[k] == q;
                if k < some.len() {
                    assert(some[k] == q);
                    assert(some.contains(q));
                    let m = choose|m: int| 0 <= m < front.len() && front[m] == q;
                    assert(rows[m] == q);
                } else {
                    assert(rows[rows.len() - 1] == q);
                }
            }
            if rows.contains(q) && q.episode_id != episode_id {
                let m = choose|m: int| 0 <= m < rows.len() && rows[m] == q;
                if m < front.len() {
                    assert(front[m] == q);
                    assert(some.contains(q));
                    let k = choose|k: int| 0 <= k < some.len() && some[k] == q;
                    assert(kept[k] == q);
                } else {
                    assert(kept[some.len() as int] == q);
                }
            }
        }
    }
}

} // verus!
