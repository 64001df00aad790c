//! What always holds of the library, whatever is done to it.

use vstd::prelude::*;

use crate::engine;
use crate::engine::Episode;
use crate::library;
use crate::queue;
use crate::replica;
use crate::sorting;
use crate::tables;
use crate::tables::{EpisodeRow, Keyed, PreferenceRow, QueueRow, QueueStamp, ShowRow};
use crate::text;

verus! {

// ── reading back an advance ─────────────────────────────────────────────

/// Some play is of the episode.
pub open spec fn is_played(plays: Seq<engine::HistoryRowView>, id: Seq<char>) -> bool {
    exists|k: int| 0 <= k < plays.len() && (#[trigger] plays[k]).episode_id == id
}

/// An episode after plays were stored: watched, and its resume point forgotten
/// where that was asked for, if one of the plays is of it.
pub open spec fn after_plays(
    e: engine::EpisodeView,
    plays: Seq<engine::HistoryRowView>,
    now: Seq<char>,
    forget_resume: bool,
) -> engine::EpisodeView {
    if is_played(plays, e.id) {
        engine::EpisodeView {
            watched_at: Some(now),
            resume_pos: if forget_resume {
                None
            } else {
                e.resume_pos
            },
            ..e
        }
    } else {
        e
    }
}

pub open spec fn all_after_plays(
    eps: Seq<engine::EpisodeView>,
    plays: Seq<engine::HistoryRowView>,
    now: Seq<char>,
    forget_resume: bool,
) -> Seq<engine::EpisodeView> {
    eps.map_values(|e: engine::EpisodeView| after_plays(e, plays, now, forget_resume))
}

spec fn one_marked(
    e: engine::EpisodeView,
    id: Seq<char>,
    now: Seq<char>,
    forget_resume: bool,
) -> engine::EpisodeView {
    if e.id == id {
        engine::EpisodeView {
            watched_at: Some(now),
            resume_pos: if forget_resume {
                None
            } else {
                e.resume_pos
            },
            ..e
        }
    } else {
        e
    }
}

proof fn lemma_episodes_in_marked(
    rows: Seq<tables::EpisodeRowView>,
    show_id: Seq<char>,
    id: Seq<char>,
    now: Seq<char>,
    forget_resume: bool,
)
    ensures
        replica::episodes_in(replica::rows_watched(rows, id, now, forget_resume), show_id)
            == replica::episodes_in(rows, show_id).map_values(
            |e: engine::EpisodeView| one_marked(e, id, now, forget_resume),
        ),
    decreases rows.len(),
{
    let f = |e: engine::EpisodeView| one_marked(e, id, now, forget_resume);
    let after = replica::rows_watched(rows, id, now, forget_resume);
    if rows.len() == 0 {
        assert(replica::episodes_in(after, show_id) =~= replica::episodes_in(
            rows,
            show_id,
        ).map_values(f));
    } else {
        let front = rows.drop_last();
        lemma_episodes_in_marked(front, show_id, id, now, forget_resume);
        assert(after.drop_last() =~= replica::rows_watched(front, id, now, forget_resume));
        assert(replica::episodes_in(after, show_id) =~= replica::episodes_in(
            rows,
            show_id,
        ).map_values(f));
    }
}

proof fn lemma_show_of_marked(
    v: replica::LibraryView,
    show_id: Seq<char>,
    id: Seq<char>,
    now: Seq<char>,
    forget_resume: bool,
)
    ensures
        replica::show_of(replica::episode_marked(v, id, now, forget_resume), show_id)
            == match replica::show_of(v, show_id) {
            Some(s) => Some(
                engine::ShowView {
                    episodes: s.episodes.map_values(
                        |e: engine::EpisodeView| one_marked(e, id, now, forget_resume),
                    ),
                    ..s
                },
            ),
            None => None,
        },
{
    let f = |e: engine::EpisodeView| one_marked(e, id, now, forget_resume);
    match tables::place::<ShowRow>(v.shows, show_id) {
        Some(i) => {
            let sid = v.shows[i].id;
            lemma_episodes_in_marked(v.episodes, sid, id, now, forget_resume);
            sorting::lemma_in_order_map::<Episode>(replica::episodes_in(v.episodes, sid), f);
        },
        None => {},
    }
}

/// What the library tells of any show after plays were stored.
proof fn lemma_show_of_plays(
    v: replica::LibraryView,
    plays: Seq<engine::HistoryRowView>,
    now: Seq<char>,
    ids: Seq<Seq<char>>,
    forget_resume: bool,
    show_id: Seq<char>,
)
    ensures
        replica::show_of(replica::plays_stored(v, plays, now, ids, forget_resume), show_id)
            == match replica::show_of(v, show_id) {
            Some(s) => Some(
                engine::ShowView {
                    episodes: all_after_plays(s.episodes, plays, now, forget_resume),
                    ..s
                },
            ),
            None => None,
        },
    decreases plays.len(),
{
    if plays.len() == 0 {
        match replica::show_of(v, show_id) {
            Some(s) => {
                assert(all_after_plays(s.episodes, plays, now, forget_resume) =~= s.episodes);
            },
            None => {},
        }
    } else {
        let front = plays.drop_last();
        let p = plays.last();
        let before = replica::plays_stored(v, front, now, ids, forget_resume);
        lemma_show_of_plays(v, front, now, ids, forget_resume, show_id);
        lemma_show_of_marked(before, show_id, p.episode_id, now, forget_resume);
        let w = replica::episode_marked(before, p.episode_id, now, forget_resume);
        let after = replica::plays_stored(v, plays, now, ids, forget_resume);
        assert(after.shows == w.shows && after.episodes == w.episodes);
        assert(replica::show_of(after, show_id) == replica::show_of(w, show_id));
        match replica::show_of(v, show_id) {
            Some(s) => {
                let x = all_after_plays(s.episodes, front, now, forget_resume);
                let y = x.map_values(
                    |e: engine::EpisodeView| one_marked(e, p.episode_id, now, forget_resume),
                );
                let z = all_after_plays(s.episodes, plays, now, forget_resume);
                assert forall|i: int| 0 <= i < y.len() implies y[i] == z[i] by {
                    let e = s.episodes[i];
                    if is_played(front, e.id) {
                        let k = choose|k: int|
                            0 <= k < front.len() && (#[trigger] front[k]).episode_id == e.id;
                        assert(plays[k].episode_id == e.id);
                    }
                    if e.id == p.episode_id {
                        assert(plays[plays.len() - 1].episode_id == e.id);
                    }
                    if is_played(plays, e.id) && e.id != p.episode_id {
                        let k = choose|k: int|
                            0 <= k < plays.len() && (#[trigger] plays[k]).episode_id == e.id;
                        assert(front[k].episode_id == e.id);
                    }
                }
                assert(y =~= z);
            },
            None => {},
        }
    }
}

/// Every episode that a show is told to have is a row of the table.
pub proof fn lemma_episodes_in_rows(
    rows: Seq<tables::EpisodeRowView>,
    show_id: Seq<char>,
    e: engine::EpisodeView,
)
    requires
        replica::episodes_in(rows, show_id).contains(e),
    ensures
        exists|i: int|
            0 <= i < rows.len() && (#[trigger] rows[i]).show_id == show_id
                && replica::to_episode(rows[i]) == e,
    decreases rows.len(),
{
    let all = replica::episodes_in(rows, show_id);
    let k = choose|k: int| 0 <= k < all.len() && all[k] == e;
    let front = rows.drop_last();
    let some = replica::episodes_in(front, show_id);
    if k < some.len() {
        assert(some[k] == e);
        assert(some.contains(e));
        lemma_episodes_in_rows(front, show_id, e);
        let i = choose|i: int|
            0 <= i < front.len() && (#[trigger] front[i]).show_id == show_id
                && replica::to_episode(front[i]) == e;
        assert(rows[i].show_id == show_id);
    } else {
        assert(rows[rows.len() - 1].show_id == show_id);
    }
}

proof fn lemma_episodes_in_distinct(rows: Seq<tables::EpisodeRowView>, show_id: Seq<char>)
    requires
        tables::distinct::<EpisodeRow>(rows),
    ensures
        forall|i: int, j: int|
            #![trigger replica::episodes_in(rows, show_id)[i], replica::episodes_in(
                rows,
                show_id,
            )[j]]
            0 <= i < j < replica::episodes_in(rows, show_id).len() ==> replica::episodes_in(
                rows,
                show_id,
            )[i].id != replica::episodes_in(rows, show_id)[j].id,
    decreases rows.len(),
{
    if rows.len() > 0 {
        let front = rows.drop_last();
        assert forall|i: int, j: int|
            #![trigger front[i], front[j]]
            0 <= i < j < front.len() implies front[i].id != front[j].id by {
            assert(rows[i].id != rows[j].id);
        }
        lemma_episodes_in_distinct(front, show_id);
        let all = replica::episodes_in(rows, show_id);
        let some = replica::episodes_in(front, show_id);
        assert forall|i: int, j: int|
            #![trigger all[i], all[j]]
            0 <= i < j < all.len() implies all[i].id != all[j].id by {
            assert(all[i] == some[i]);
            if j < some.len() {
                assert(all[j] == some[j]);
            } else {
                assert(some.contains(some[i]));
                lemma_episodes_in_rows(front, show_id, some[i]);
                let k = choose|k: int|
                    0 <= k < front.len() && (#[trigger] front[k]).show_id == show_id
                        && replica::to_episode(front[k]) == some[i];
                assert(rows[k].id != rows[rows.len() - 1].id);
            }
        }
    }
}

/// No two episodes of a show have the same id.
pub proof fn lemma_show_episodes_distinct(v: replica::LibraryView, show_id: Seq<char>)
    requires
        v.well_formed(),
    ensures
        replica::show_of(v, show_id) matches Some(s) ==> forall|i: int, j: int|
            #![trigger s.episodes[i], s.episodes[j]]
            0 <= i < j < s.episodes.len() ==> s.episodes[i].id != s.episodes[j].id,
{
    broadcast use vstd::seq_lib::group_to_multiset_ensures;

    match replica::show_of(v, show_id) {
        Some(s) => {
            let raw = replica::episodes_in(v.episodes, s.id);
            lemma_episodes_in_distinct(v.episodes, s.id);
            sorting::lemma_in_order::<Episode>(raw);
            let eps = s.episodes;
            assert(raw.no_duplicates()) by {
                assert forall|a: int, b: int| 0 <= a < raw.len() && 0 <= b < raw.len() && a
                    != b implies raw[a] != raw[b] by {
                    if a < b {
                        assert(raw[a].id != raw[b].id);
                    } else {
                        assert(raw[b].id != raw[a].id);
                    }
                }
            }
            raw.lemma_multiset_has_no_duplicates();
            assert forall|x: engine::EpisodeView| eps.to_multiset().contains(x) implies eps.to_multiset().count(
                x,
            ) == 1 by {
            }
            eps.lemma_multiset_has_no_duplicates_conv();
            assert forall|i: int, j: int|
                #![trigger eps[i], eps[j]]
                0 <= i < j < eps.len() implies eps[i].id != eps[j].id by {
                assert(eps.contains(eps[i]) && eps.contains(eps[j]));
                let a = choose|a: int| 0 <= a < raw.len() && raw[a] == eps[i];
                let b = choose|b: int| 0 <= b < raw.len() && raw[b] == eps[j];
                assert(eps[i] != eps[j]);
                if a < b {
                    assert(raw[a].id != raw[b].id);
                } else {
                    assert(raw[b].id != raw[a].id);
                }
            }
        },
        None => {},
    }
}

/// A show after an advance, as a read tells it: the episodes that were marked
/// are watched and have no resume point, and the show is retired if the advance
/// drained it.
pub open spec fn told_after_advance(
    s: engine::ShowView,
    ids: Seq<Seq<char>>,
    now: Seq<char>,
) -> engine::ShowView {
    engine::ShowView {
        episodes: Seq::new(
            s.episodes.len(),
            |i: int|
                if engine::is_marked(s.episodes, ids, i) {
                    engine::EpisodeView {
                        watched_at: Some(now),
                        resume_pos: None,
                        ..s.episodes[i]
                    }
                } else {
                    s.episodes[i]
                },
        ),
        removed_at: if engine::drains(s, ids, now) {
            Some(now)
        } else {
            s.removed_at
        },
        ..s
    }
}

proof fn lemma_place_retired(
    rows: Seq<tables::ShowRowView>,
    id: Seq<char>,
    removed_at: Option<Seq<char>>,
    now: Seq<char>,
    key: Seq<char>,
)
    ensures
        tables::place::<ShowRow>(replica::rows_retired(rows, id, removed_at, now), key)
            == tables::place::<ShowRow>(rows, key),
    decreases rows.len(),
{
    if rows.len() > 0 {
        lemma_place_retired(rows.drop_last(), id, removed_at, now, key);
        assert(replica::rows_retired(rows, id, removed_at, now).drop_last()
            =~= replica::rows_retired(rows.drop_last(), id, removed_at, now));
    }
}

proof fn lemma_show_of_retired(
    v: replica::LibraryView,
    id: Seq<char>,
    removed_at: Option<Seq<char>>,
    now: Seq<char>,
    show_id: Seq<char>,
)
    ensures
        replica::show_of(replica::retired(v, id, removed_at, now), show_id)
            == match replica::show_of(v, show_id) {
            Some(s) => Some(
                engine::ShowView {
                    removed_at: if show_id == id {
                        removed_at
                    } else {
                        s.removed_at
                    },
                    ..s
                },
            ),
            None => None,
        },
{
    lemma_place_retired(v.shows, id, removed_at, now, show_id);
    tables::lemma_place::<ShowRow>(v.shows, show_id);
}

/// What a read gives back of an advance: the named show with the named episodes
/// watched, their resume points forgotten, and everything else as it was.
pub proof fn law_read_after_advance(
    v: replica::LibraryView,
    show_id: Seq<char>,
    episode_ids: Seq<Seq<char>>,
    now: Seq<char>,
    ids: Seq<Seq<char>>,
)
    requires
        v.well_formed(),
    ensures
        replica::show_of(replica::show_advanced(v, show_id, episode_ids, now, ids), show_id)
            == match replica::show_of(v, show_id) {
            Some(s) => Some(told_after_advance(s, episode_ids, now)),
            None => None,
        },
{
    let plays = replica::plays_of(v, show_id, episode_ids, now);
    lemma_show_of_plays(v, plays, now, ids, true, show_id);
    let stored = replica::plays_stored(v, plays, now, ids, true);
    lemma_show_of_retired(stored, show_id, Some(now), now, show_id);
    tables::lemma_place::<ShowRow>(v.shows, show_id);
    match replica::show_of(v, show_id) {
        Some(s) => {
            lemma_show_episodes_distinct(v, show_id);
            lemma_played_is_marked(s, episode_ids, now);
            assert(all_after_plays(s.episodes, plays, now, true) =~= told_after_advance(
                s,
                episode_ids,
                now,
            ).episodes);
        },
        None => {},
    }
}

proof fn lemma_played_is_marked(s: engine::ShowView, episode_ids: Seq<Seq<char>>, now: Seq<char>)
    requires
        forall|i: int, j: int|
            #![trigger s.episodes[i], s.episodes[j]]
            0 <= i < j < s.episodes.len() ==> s.episodes[i].id != s.episodes[j].id,
    ensures
        forall|i: int|
            0 <= i < s.episodes.len() ==> (is_played(
                engine::plays(s.id, s.episodes, episode_ids, now),
                (#[trigger] s.episodes[i]).id,
            ) <==> engine::is_marked(s.episodes, episode_ids, i)),
{
    let eps = s.episodes;
    let plays = engine::plays(s.id, eps, episode_ids, now);
    engine::law_one_play_per_marked_episode(s.id, eps, episode_ids, now);
    assert forall|i: int| 0 <= i < eps.len() implies (is_played(plays, (#[trigger] eps[i]).id)
        <==> engine::is_marked(eps, episode_ids, i)) by {
        if is_played(plays, eps[i].id) {
            let k = choose|k: int|
                0 <= k < plays.len() && (#[trigger] plays[k]).episode_id == eps[i].id;
            assert(plays.contains(plays[k]));
            let m = choose|m: int|
                #![trigger engine::is_marked(eps, episode_ids, m)]
                engine::is_marked(eps, episode_ids, m) && plays[k] == (engine::HistoryRowView {
                    show_id: s.id,
                    episode_id: eps[m].id,
                    relative_path: eps[m].relative_path,
                    played_at: now,
                });
            if m < i {
                assert(eps[m].id != eps[i].id);
            } else if i < m {
                assert(eps[i].id != eps[m].id);
            }
        }
        if engine::is_marked(eps, episode_ids, i) {
            let want = engine::HistoryRowView {
                show_id: s.id,
                episode_id: eps[i].id,
                relative_path: eps[i].relative_path,
                played_at: now,
            };
            assert(plays.contains(want));
            let k = choose|k: int| 0 <= k < plays.len() && plays[k] == want;
            assert(plays[k].episode_id == eps[i].id);
        }
    }
}

/// An advance touches only its own show: every other reads as before.
pub proof fn law_advance_leaves_other_shows_alone(
    v: replica::LibraryView,
    show_id: Seq<char>,
    episode_ids: Seq<Seq<char>>,
    now: Seq<char>,
    ids: Seq<Seq<char>>,
    other: Seq<char>,
)
    requires
        v.well_formed(),
        other != show_id,
    ensures
        replica::show_of(replica::show_advanced(v, show_id, episode_ids, now, ids), other)
            == replica::show_of(v, other),
{
    let plays = replica::plays_of(v, show_id, episode_ids, now);
    lemma_show_of_plays(v, plays, now, ids, true, other);
    let stored = replica::plays_stored(v, plays, now, ids, true);
    lemma_show_of_retired(stored, show_id, Some(now), now, other);
    tables::lemma_place::<ShowRow>(v.shows, other);
    tables::lemma_place::<ShowRow>(v.shows, show_id);
    match replica::show_of(v, other) {
        Some(t) => {
            assert forall|i: int| 0 <= i < t.episodes.len() implies after_plays(
                #[trigger] t.episodes[i],
                plays,
                now,
                true,
            ) == t.episodes[i] by {
                lemma_not_played_elsewhere(v, show_id, episode_ids, now, t, i);
            }
            assert(all_after_plays(t.episodes, plays, now, true) =~= t.episodes);
        },
        None => {},
    }
}

proof fn lemma_not_played_elsewhere(
    v: replica::LibraryView,
    show_id: Seq<char>,
    episode_ids: Seq<Seq<char>>,
    now: Seq<char>,
    t: engine::ShowView,
    i: int,
)
    requires
        v.well_formed(),
        t.id != show_id,
        replica::show_of(v, t.id) == Some(t),
        0 <= i < t.episodes.len(),
    ensures
        !is_played(replica::plays_of(v, show_id, episode_ids, now), t.episodes[i].id),
{
    let plays = replica::plays_of(v, show_id, episode_ids, now);
    if is_played(plays, t.episodes[i].id) {
        let s = replica::show_of(v, show_id)->0;
        tables::lemma_place::<ShowRow>(v.shows, show_id);
        tables::lemma_place::<ShowRow>(v.shows, t.id);
        engine::law_one_play_per_marked_episode(s.id, s.episodes, episode_ids, now);
        let k = choose|k: int|
            0 <= k < plays.len() && (#[trigger] plays[k]).episode_id == t.episodes[i].id;
        assert(plays.contains(plays[k]));
        let m = choose|m: int|
            #![trigger engine::is_marked(s.episodes, episode_ids, m)]
            engine::is_marked(s.episodes, episode_ids, m) && plays[k] == (engine::HistoryRowView {
                show_id: s.id,
                episode_id: s.episodes[m].id,
                relative_path: s.episodes[m].relative_path,
                played_at: now,
            });
        sorting::lemma_in_order::<Episode>(replica::episodes_in(v.episodes, s.id));
        sorting::lemma_in_order::<Episode>(replica::episodes_in(v.episodes, t.id));
        assert(s.episodes.contains(s.episodes[m]));
        assert(t.episodes.contains(t.episodes[i]));
        lemma_episodes_in_rows(v.episodes, s.id, s.episodes[m]);
        lemma_episodes_in_rows(v.episodes, t.id, t.episodes[i]);
        let a = choose|a: int|
            0 <= a < v.episodes.len() && (#[trigger] v.episodes[a]).show_id == s.id
                && replica::to_episode(v.episodes[a]) == s.episodes[m];
        let b = choose|b: int|
            0 <= b < v.episodes.len() && (#[trigger] v.episodes[b]).show_id == t.id
                && replica::to_episode(v.episodes[b]) == t.episodes[i];
        if a < b {
            assert(v.episodes[a].id != v.episodes[b].id);
        } else {
            assert(v.episodes[b].id != v.episodes[a].id);
        }
    }
}

// ── advancing twice ─────────────────────────────────────────────────────

/// The rows of both libraries have the same keys, row by row.
spec fn same_keys(v: replica::LibraryView, w: replica::LibraryView) -> bool {
    &&& v.shows.len() == w.shows.len()
    &&& v.episodes.len() == w.episodes.len()
    &&& forall|i: int| 0 <= i < v.shows.len() ==> (#[trigger] w.shows[i]).id == v.shows[i].id
    &&& forall|i: int|
        0 <= i < v.episodes.len() ==> (#[trigger] w.episodes[i]).id == v.episodes[i].id
    &&& v.queue == w.queue
    &&& v.preferences == w.preferences
    &&& v.queue_stamps == w.queue_stamps
}

proof fn lemma_same_keys(v: replica::LibraryView, w: replica::LibraryView)
    requires
        v.well_formed(),
        same_keys(v, w),
    ensures
        w.well_formed(),
{
    assert forall|i: int, j: int|
        #![trigger w.shows[i], w.shows[j]]
        0 <= i < j < w.shows.len() implies w.shows[i].id != w.shows[j].id by {
        assert(v.shows[i].id != v.shows[j].id);
    }
    assert forall|i: int, j: int|
        #![trigger w.episodes[i], w.episodes[j]]
        0 <= i < j < w.episodes.len() implies w.episodes[i].id != w.episodes[j].id by {
        assert(v.episodes[i].id != v.episodes[j].id);
    }
}

proof fn lemma_plays_keep_keys(
    v: replica::LibraryView,
    plays: Seq<engine::HistoryRowView>,
    now: Seq<char>,
    ids: Seq<Seq<char>>,
    forget_resume: bool,
)
    ensures
        same_keys(v, replica::plays_stored(v, plays, now, ids, forget_resume)),
    decreases plays.len(),
{
    if plays.len() > 0 {
        lemma_plays_keep_keys(v, plays.drop_last(), now, ids, forget_resume);
    }
}

proof fn lemma_advance_keeps_keys(
    v: replica::LibraryView,
    show_id: Seq<char>,
    episode_ids: Seq<Seq<char>>,
    now: Seq<char>,
    ids: Seq<Seq<char>>,
)
    ensures
        same_keys(v, replica::show_advanced(v, show_id, episode_ids, now, ids)),
{
    lemma_plays_keep_keys(
        v,
        replica::plays_of(v, show_id, episode_ids, now),
        now,
        ids,
        true,
    );
}

proof fn lemma_batches_keep_keys(
    v: replica::LibraryView,
    batches: Seq<replica::ShowBatchView>,
    now: Seq<char>,
    ids: Seq<Seq<char>>,
)
    ensures
        same_keys(v, replica::batches_advanced(v, batches, now, ids)),
    decreases batches.len(),
{
    if batches.len() > 0 {
        lemma_batches_keep_keys(v, batches.drop_last(), now, ids);
        let before = replica::batches_advanced(v, batches.drop_last(), now, ids);
        let b = batches.last();
        lemma_advance_keeps_keys(
            before,
            b.show_id,
            b.episode_ids,
            now,
            ids.skip(before.history.len() - v.history.len()),
        );
    }
}

/// Advancing batches keeps the tables in form, and every show.
pub(crate) proof fn lemma_batches_keep_shows(
    v: replica::LibraryView,
    batches: Seq<replica::ShowBatchView>,
    now: Seq<char>,
    ids: Seq<Seq<char>>,
)
    requires
        v.well_formed(),
    ensures
        ({
            let w = replica::batches_advanced(v, batches, now, ids);
            &&& w.well_formed()
            &&& w.shows.len() == v.shows.len()
            &&& w.episodes.len() == v.episodes.len()
            &&& forall|i: int| 0 <= i < v.shows.len() ==> (#[trigger] w.shows[i]).id == v.shows[i].id
        }),
{
    lemma_batches_keep_keys(v, batches, now, ids);
    lemma_same_keys(v, replica::batches_advanced(v, batches, now, ids));
}

proof fn lemma_quiet_advance(
    v: replica::LibraryView,
    show_id: Seq<char>,
    episode_ids: Seq<Seq<char>>,
    now: Seq<char>,
    ids: Seq<Seq<char>>,
)
    requires
        replica::plays_of(v, show_id, episode_ids, now).len() == 0,
    ensures
        replica::show_advanced(v, show_id, episode_ids, now, ids) == v,
        !replica::show_drains(v, show_id, episode_ids, now),
{
}

proof fn lemma_quiet_after_advance(
    v: replica::LibraryView,
    show_id: Seq<char>,
    episode_ids: Seq<Seq<char>>,
    now: Seq<char>,
    ids: Seq<Seq<char>>,
    later: Seq<char>,
)
    requires
        v.well_formed(),
    ensures
        replica::plays_of(
            replica::show_advanced(v, show_id, episode_ids, now, ids),
            show_id,
            episode_ids,
            later,
        ).len() == 0,
{
    law_read_after_advance(v, show_id, episode_ids, now, ids);
    match replica::show_of(v, show_id) {
        Some(s) => {
            let t = told_after_advance(s, episode_ids, now);
            assert forall|k: int| 0 <= k < episode_ids.len() implies engine::advances(
                t.episodes,
                #[trigger] episode_ids[k],
            ) is None by {
                assert forall|i: int| 0 <= i < t.episodes.len() implies (#[trigger] t.episodes[i]).id
                    == s.episodes[i].id by {
                }
                engine::lemma_first_named_by_ids(t.episodes, s.episodes, episode_ids[k]);
                engine::lemma_first_named(s.episodes, episode_ids[k]);
                match engine::first_named(s.episodes, episode_ids[k]) {
                    Some(i) => {
                        assert(episode_ids.contains(s.episodes[i].id));
                        assert(t.episodes[i].watched_at is Some);
                    },
                    None => {},
                }
            }
            engine::lemma_nothing_left(t.episodes, episode_ids, t.id, later);
        },
        None => {},
    }
}

spec fn batches_sorted(batches: Seq<replica::ShowBatchView>) -> bool {
    forall|i: int, j: int|
        #![trigger batches[i], batches[j]]
        0 <= i < j < batches.len() ==> text::text_before(batches[i].show_id, batches[j].show_id)
}

proof fn lemma_batched_sorted(
    batches: Seq<replica::ShowBatchView>,
    show_id: Seq<char>,
    episode_id: Seq<char>,
)
    requires
        batches_sorted(batches),
    ensures
        batches_sorted(replica::batched(batches, show_id, episode_id)),
        forall|k: int|
            0 <= k < replica::batched(batches, show_id, episode_id).len() ==> (
            #[trigger] replica::batched(batches, show_id, episode_id)[k]).show_id == show_id
                || exists|m: int|
                0 <= m < batches.len() && (#[trigger] batches[m]).show_id == replica::batched(
                    batches,
                    show_id,
                    episode_id,
                )[k].show_id,
    decreases batches.len(),
{
    let b = replica::batched(batches, show_id, episode_id);
    if batches.len() == 0 {
    } else {
        let front = batches.drop_last();
        let l = batches.last();
        assert forall|i: int, j: int|
            #![trigger front[i], front[j]]
            0 <= i < j < front.len() implies text::text_before(
            front[i].show_id,
            front[j].show_id,
        ) by {
            assert(text::text_before(batches[i].show_id, batches[j].show_id));
        }
        if l.show_id == show_id {
            assert forall|i: int, j: int|
                #![trigger b[i], b[j]]
                0 <= i < j < b.len() implies text::text_before(b[i].show_id, b[j].show_id) by {
                assert(text::text_before(batches[i].show_id, batches[j].show_id));
            }
            assert forall|k: int| 0 <= k < b.len() implies (#[trigger] b[k]).show_id == show_id
                || exists|m: int|
                0 <= m < batches.len() && (#[trigger] batches[m]).show_id == b[k].show_id by {
                assert(batches[k].show_id == b[k].show_id);
            }
        } else if text::text_before(l.show_id, show_id) {
            assert forall|i: int, j: int|
                #![trigger b[i], b[j]]
                0 <= i < j < b.len() implies text::text_before(b[i].show_id, b[j].show_id) by {
                if j < batches.len() {
                    assert(text::text_before(batches[i].show_id, batches[j].show_id));
                } else if i < batches.len() - 1 {
                    assert(text::text_before(batches[i].show_id, batches[batches.len() - 1].show_id));
                    text::lemma_text_before_transitive(batches[i].show_id, l.show_id, show_id);
                }
            }
            assert forall|k: int| 0 <= k < b.len() implies (#[trigger] b[k]).show_id == show_id
                || exists|m: int|
                0 <= m < batches.len() && (#[trigger] batches[m]).show_id == b[k].show_id by {
                if k < batches.len() {
                    assert(batches[k].show_id == b[k].show_id);
                }
            }
        } else {
            lemma_batched_sorted(front, show_id, episode_id);
            text::lemma_text_order(l.show_id, show_id);
            let fb = replica::batched(front, show_id, episode_id);
            assert(b == fb.push(l));
            assert forall|i: int, j: int|
                #![trigger b[i], b[j]]
                0 <= i < j < b.len() implies text::text_before(b[i].show_id, b[j].show_id) by {
                if j < fb.len() {
                    assert(b[i] == fb[i] && b[j] == fb[j]);
                } else {
                    assert(b[i] == fb[i]);
                    if fb[i].show_id != show_id {
                        let m = choose|m: int|
                            0 <= m < front.len() && (#[trigger] front[m]).show_id == fb[i].show_id;
                        assert(text::text_before(
                            batches[m].show_id,
                            batches[batches.len() - 1].show_id,
                        ));
                    }
                }
            }
            assert forall|k: int| 0 <= k < b.len() implies (#[trigger] b[k]).show_id == show_id
                || exists|m: int|
                0 <= m < batches.len() && (#[trigger] batches[m]).show_id == b[k].show_id by {
                if k < fb.len() {
                    assert(b[k] == fb[k]);
                    if fb[k].show_id != show_id {
                        let m = choose|m: int|
                            0 <= m < front.len() && (#[trigger] front[m]).show_id == fb[k].show_id;
                        assert(batches[m].show_id == b[k].show_id);
                    }
                } else {
                    assert(batches[batches.len() - 1].show_id == b[k].show_id);
                }
            }
        }
    }
}

proof fn lemma_batches_sorted(entries: Seq<(Seq<char>, Seq<char>)>)
    ensures
        batches_sorted(replica::batches_of(entries)),
    decreases entries.len(),
{
    if entries.len() > 0 {
        lemma_batches_sorted(entries.drop_last());
        lemma_batched_sorted(
            replica::batches_of(entries.drop_last()),
            entries.last().0,
            entries.last().1,
        );
    }
}

/// Once a batch was advanced, advancing later ones leaves nothing of it to do.
proof fn lemma_all_quiet(
    v: replica::LibraryView,
    batches: Seq<replica::ShowBatchView>,
    now: Seq<char>,
    ids: Seq<Seq<char>>,
    later: Seq<char>,
)
    requires
        v.well_formed(),
        batches_sorted(batches),
    ensures
        forall|k: int|
            0 <= k < batches.len() ==> replica::plays_of(
                replica::batches_advanced(v, batches, now, ids),
                (#[trigger] batches[k]).show_id,
                batches[k].episode_ids,
                later,
            ).len() == 0,
    decreases batches.len(),
{
    if batches.len() > 0 {
        let front = batches.drop_last();
        let b = batches.last();
        assert forall|i: int, j: int|
            #![trigger front[i], front[j]]
            0 <= i < j < front.len() implies text::text_before(
            front[i].show_id,
            front[j].show_id,
        ) by {
            assert(text::text_before(batches[i].show_id, batches[j].show_id));
        }
        lemma_all_quiet(v, front, now, ids, later);
        let before = replica::batches_advanced(v, front, now, ids);
        let rest = ids.skip(before.history.len() - v.history.len());
        lemma_batches_keep_keys(v, front, now, ids);
        lemma_same_keys(v, before);
        lemma_quiet_after_advance(before, b.show_id, b.episode_ids, now, rest, later);
        assert forall|k: int| 0 <= k < batches.len() implies replica::plays_of(
            replica::batches_advanced(v, batches, now, ids),
            (#[trigger] batches[k]).show_id,
            batches[k].episode_ids,
            later,
        ).len() == 0 by {
            if k < front.len() {
                assert(text::text_before(batches[k].show_id, batches[batches.len() - 1].show_id));
                text::lemma_text_order(batches[k].show_id, b.show_id);
                assert(front[k] == batches[k]);
                law_advance_leaves_other_shows_alone(
                    before,
                    b.show_id,
                    b.episode_ids,
                    now,
                    rest,
                    batches[k].show_id,
                );
            }
        }
    }
}

proof fn lemma_quiet_batches(
    w: replica::LibraryView,
    batches: Seq<replica::ShowBatchView>,
    later: Seq<char>,
    ids: Seq<Seq<char>>,
)
    requires
        forall|k: int|
            0 <= k < batches.len() ==> replica::plays_of(
                w,
                (#[trigger] batches[k]).show_id,
                batches[k].episode_ids,
                later,
            ).len() == 0,
    ensures
        replica::batches_advanced(w, batches, later, ids) == w,
        replica::batches_drained(w, batches, later, ids).len() == 0,
    decreases batches.len(),
{
    if batches.len() > 0 {
        let front = batches.drop_last();
        assert forall|k: int| 0 <= k < front.len() implies replica::plays_of(
            w,
            (#[trigger] front[k]).show_id,
            front[k].episode_ids,
            later,
        ).len() == 0 by {
            assert(batches[k] == front[k]);
        }
        lemma_quiet_batches(w, front, later, ids);
        let b = batches[batches.len() - 1];
        lemma_quiet_advance(
            w,
            b.show_id,
            b.episode_ids,
            later,
            ids.skip(w.history.len() - w.history.len()),
        );
    }
}

/// Advancing entries a second time, at any later time, changes nothing: nothing
/// is newly watched and no show is retired by it.
pub proof fn law_library_advance_is_idempotent(
    v: replica::LibraryView,
    entries: Seq<(Seq<char>, Seq<char>)>,
    now: Seq<char>,
    ids: Seq<Seq<char>>,
    later: Seq<char>,
    more: Seq<Seq<char>>,
)
    requires
        v.well_formed(),
    ensures
        replica::advanced(replica::advanced(v, entries, now, ids), entries, later, more)
            == replica::advanced(v, entries, now, ids),
        replica::newly_watched(replica::advanced(v, entries, now, ids), entries, later, more) == 0,
        replica::batches_drained(
            replica::advanced(v, entries, now, ids),
            replica::batches_of(entries),
            later,
            more,
        ).len() == 0,
{
    let batches = replica::batches_of(entries);
    lemma_batches_sorted(entries);
    lemma_all_quiet(v, batches, now, ids, later);
    lemma_quiet_batches(replica::advanced(v, entries, now, ids), batches, later, more);
}

// ── what every change keeps ─────────────────────────────────────────────

/// Watching, by whatever way, keeps every primary key.
pub proof fn law_watching_keeps_keys(
    v: replica::LibraryView,
    entries: Seq<(Seq<char>, Seq<char>)>,
    show_id: Seq<char>,
    episode_ids: Seq<Seq<char>>,
    now: Seq<char>,
    ids: Seq<Seq<char>>,
)
    requires
        v.well_formed(),
    ensures
        replica::advanced(v, entries, now, ids).well_formed(),
        library::show_watched(v, show_id, now, ids).well_formed(),
        library::all_picked_marked(v, show_id, episode_ids, now, ids).well_formed(),
{
    lemma_batches_keep_keys(v, replica::batches_of(entries), now, ids);
    lemma_same_keys(v, replica::advanced(v, entries, now, ids));
    lemma_plays_keep_keys(
        v,
        library::unwatched_plays(v.episodes, show_id, now),
        now,
        ids,
        false,
    );
    lemma_same_keys(v, library::show_watched(v, show_id, now, ids));
    lemma_picks_keep_keys(v, show_id, episode_ids, now, ids);
    lemma_same_keys(v, library::all_picked_marked(v, show_id, episode_ids, now, ids));
}

proof fn lemma_picks_keep_keys(
    v: replica::LibraryView,
    show_id: Seq<char>,
    episode_ids: Seq<Seq<char>>,
    now: Seq<char>,
    ids: Seq<Seq<char>>,
)
    ensures
        same_keys(v, library::all_picked_marked(v, show_id, episode_ids, now, ids)),
    decreases episode_ids.len(),
{
    if episode_ids.len() > 0 {
        lemma_picks_keep_keys(v, show_id, episode_ids.drop_last(), now, ids);
    }
}

/// Deferring, resuming, editing, retiring and starting over keep every primary
/// key.
pub proof fn law_editing_keeps_keys(
    v: replica::LibraryView,
    show_id: Seq<char>,
    episode_id: Seq<char>,
    pos: Option<u64>,
    close: bool,
    name: Option<Seq<char>>,
    root_path: Option<Seq<char>>,
    playlist: Option<Seq<char>>,
    removed_at: Option<Seq<char>>,
    now: Seq<char>,
)
    requires
        v.well_formed(),
    ensures
        replica::deferred(v, show_id, episode_id, now).well_formed(),
        replica::resumed(v, episode_id, pos, close, now).well_formed(),
        replica::retired(v, show_id, removed_at, now).well_formed(),
        library::show_edited(v, show_id, name, root_path, playlist, now).well_formed(),
        library::show_unwatched(v, show_id, now).well_formed(),
{
    lemma_same_keys(v, replica::deferred(v, show_id, episode_id, now));
    lemma_same_keys(v, replica::resumed(v, episode_id, pos, close, now));
    lemma_same_keys(v, replica::retired(v, show_id, removed_at, now));
    lemma_same_keys(v, library::show_edited(v, show_id, name, root_path, playlist, now));
    lemma_same_keys(v, library::show_unwatched(v, show_id, now));
}

/// A track choice keeps every primary key.
pub proof fn law_track_choice_keeps_keys(
    v: replica::LibraryView,
    episode_id: Seq<char>,
    track: replica::Track,
    value: Seq<char>,
    now: Seq<char>,
)
    requires
        v.well_formed(),
    ensures
        replica::track_chosen(v, episode_id, track, value, now).well_formed(),
{
    let w = replica::track_chosen(v, episode_id, track, value, now);
    tables::lemma_place::<PreferenceRow>(v.preferences, episode_id);
    assert forall|i: int, j: int|
        #![trigger w.preferences[i], w.preferences[j]]
        0 <= i < j < w.preferences.len() implies w.preferences[i].episode_id
        != w.preferences[j].episode_id by {
        if j < v.preferences.len() {
            assert(v.preferences[i].episode_id != v.preferences[j].episode_id);
        } else {
            assert(v.preferences[i].episode_id != episode_id);
        }
    }
}

proof fn lemma_appended_keep_keys(
    rows: Seq<tables::EpisodeRowView>,
    show_id: Seq<char>,
    paths: Seq<Seq<char>>,
    first: int,
    now: Seq<char>,
    ids: Seq<Seq<char>>,
)
    requires
        tables::distinct::<EpisodeRow>(rows),
        paths.len() <= ids.len(),
        ids.no_duplicates(),
        forall|i: int|
            0 <= i < ids.len() ==> tables::place::<EpisodeRow>(rows, #[trigger] ids[i]) is None,
    ensures
        tables::distinct::<EpisodeRow>(
            rows + library::new_rows(show_id, paths, first, now, ids),
        ),
{
    let new = library::new_rows(show_id, paths, first, now, ids);
    let all = rows + new;
    assert forall|i: int, j: int|
        #![trigger all[i], all[j]]
        0 <= i < j < all.len() implies all[i].id != all[j].id by {
        if j < rows.len() {
            assert(rows[i].id != rows[j].id);
        } else {
            let b = j - rows.len();
            assert(all[j].id == ids[b]);
            if i < rows.len() {
                assert(tables::place::<EpisodeRow>(rows, ids[b]) is None);
                tables::lemma_place::<EpisodeRow>(rows, ids[b]);
                assert(EpisodeRow::key(rows[i]) != ids[b]);
            } else {
                let a = i - rows.len();
                assert(all[i].id == ids[a]);
            }
        }
    }
}

/// Adding a show under new ids keeps every primary key.
pub proof fn law_adding_keeps_keys(
    v: replica::LibraryView,
    playlist: Seq<char>,
    name: Seq<char>,
    root_path: Seq<char>,
    paths: Seq<Seq<char>>,
    now: Seq<char>,
    show_id: Seq<char>,
    ids: Seq<Seq<char>>,
)
    requires
        v.well_formed(),
        tables::place::<ShowRow>(v.shows, show_id) is None,
        library::fresh_episode_ids(v, ids),
        paths.len() <= ids.len(),
    ensures
        library::show_added(
            v,
            playlist,
            name,
            root_path,
            paths,
            now,
            show_id,
            ids,
        ).well_formed(),
{
    let w = library::show_added(v, playlist, name, root_path, paths, now, show_id, ids);
    lemma_appended_keep_keys(v.episodes, show_id, paths, 0, now, ids);
    tables::lemma_place::<ShowRow>(v.shows, show_id);
    assert forall|i: int, j: int|
        #![trigger w.shows[i], w.shows[j]]
        0 <= i < j < w.shows.len() implies w.shows[i].id != w.shows[j].id by {
        if j < v.shows.len() {
            assert(v.shows[i].id != v.shows[j].id);
        } else {
            assert(ShowRow::key(v.shows[i]) != show_id);
        }
    }
}

/// A rescan that numbers new episodes with new ids keeps every primary key.
pub proof fn law_rescan_keeps_keys(
    v: replica::LibraryView,
    show_id: Seq<char>,
    paths: Seq<Seq<char>>,
    now: Seq<char>,
    ids: Seq<Seq<char>>,
)
    requires
        v.well_formed(),
        library::fresh_episode_ids(v, ids),
        library::unknown_paths(paths, library::paths_in(v.episodes, show_id)).len() <= ids.len(),
    ensures
        library::rescanned(v, show_id, paths, now, ids).well_formed(),
{
    let added = library::unknown_paths(paths, library::paths_in(v.episodes, show_id));
    lemma_appended_keep_keys(
        v.episodes,
        show_id,
        added,
        library::position_behind(v.episodes, show_id),
        now,
        ids,
    );
}

proof fn lemma_stamps_distinct(
    stamps: Seq<tables::QueueStampView>,
    playlist: Seq<char>,
    updated_at: Seq<char>,
)
    requires
        tables::distinct::<QueueStamp>(stamps),
    ensures
        tables::distinct::<QueueStamp>(queue::stamped(stamps, playlist, updated_at)),
{
    let s = queue::stamped(stamps, playlist, updated_at);
    tables::lemma_place::<QueueStamp>(stamps, playlist);
    assert forall|i: int, j: int|
        #![trigger s[i], s[j]]
        0 <= i < j < s.len() implies s[i].playlist != s[j].playlist by {
        if j < stamps.len() {
            assert(stamps[i].playlist != stamps[j].playlist);
        } else {
            assert(QueueStamp::key(stamps[i]) != playlist);
        }
    }
}

proof fn lemma_all_stamps_distinct(
    stamps: Seq<tables::QueueStampView>,
    entries: Seq<queue::StoredEntryView>,
    updated_at: Seq<char>,
)
    requires
        tables::distinct::<QueueStamp>(stamps),
    ensures
        tables::distinct::<QueueStamp>(queue::all_stamped(stamps, entries, updated_at)),
    decreases entries.len(),
{
    if entries.len() > 0 {
        lemma_all_stamps_distinct(stamps, entries.drop_last(), updated_at);
        lemma_stamps_distinct(
            queue::all_stamped(stamps, entries.drop_last(), updated_at),
            entries.last().4,
            updated_at,
        );
    }
}

proof fn lemma_queue_without(rows: Seq<tables::QueueRowView>, episode_id: Seq<char>)
    ensures
        queue::queue_without(rows, episode_id).len() <= rows.len(),
        forall|x: tables::QueueRowView| #[trigger]
            queue::queue_without(rows, episode_id).contains(x) <==> rows.contains(x)
                && x.episode_id != episode_id,
        tables::distinct::<QueueRow>(rows) ==> tables::distinct::<QueueRow>(
            queue::queue_without(rows, episode_id),
        ),
    decreases rows.len(),
{
    let kept = queue::queue_without(rows, episode_id);
    if rows.len() > 0 {
        let front = rows.drop_last();
        let some = queue::queue_without(front, episode_id);
        lemma_queue_without(front, episode_id);
        assert forall|x: tables::QueueRowView| #[trigger] kept.contains(x) <==> rows.contains(x)
            && x.episode_id != episode_id by {
            if kept.contains(x) {
                let k = choose|k: int| 0 <= k < kept.len() && kept[k] == x;
                if k < some.len() {
                    assert(some[k] == x);
                    assert(some.contains(x));
                    let m = choose|m: int| 0 <= m < front.len() && front[m] == x;
                    assert(rows[m] == x);
                } else {
                    assert(rows[rows.len() - 1] == x);
                }
            }
            if rows.contains(x) && x.episode_id != episode_id {
                let m = choose|m: int| 0 <= m < rows.len() && rows[m] == x;
                if m < front.len() {
                    assert(front[m] == x);
                    assert(some.contains(x));
                    let k = choose|k: int| 0 <= k < some.len() && some[k] == x;
                    assert(kept[k] == x);
                } else {
                    assert(kept[some.len() as int] == x);
                }
            }
        }
        if tables::distinct::<QueueRow>(rows) {
            assert forall|i: int, j: int|
                #![trigger front[i], front[j]]
                0 <= i < j < front.len() implies front[i].episode_id != front[j].episode_id by {
                assert(rows[i].episode_id != rows[j].episode_id);
            }
            assert forall|i: int, j: int|
                #![trigger kept[i], kept[j]]
                0 <= i < j < kept.len() implies kept[i].episode_id != kept[j].episode_id by {
                assert(kept[i] == some[i]);
                if j < some.len() {
                    assert(kept[j] == some[j]);
                } else {
                    assert(some.contains(some[i]));
                    let m = choose|m: int| 0 <= m < front.len() && front[m] == some[i];
                    assert(rows[m].episode_id != rows[rows.len() - 1].episode_id);
                }
            }
        }
    }
}

/// Saving, stepping and repairing the stored round keep every primary key.
pub proof fn law_round_changes_keep_keys(
    v: replica::LibraryView,
    entries: Seq<queue::StoredEntryView>,
    episode_id: Seq<char>,
    state: Seq<char>,
    playlist: Seq<char>,
    now: Seq<char>,
)
    requires
        v.well_formed(),
        queue::distinct_entries(entries),
    ensures
        queue::round_saved(v, entries, now).well_formed(),
        queue::entry_in_state(v, episode_id, state, playlist, now).well_formed(),
        queue::entry_removed(v, episode_id, now).well_formed(),
{
    let saved = queue::round_saved(v, entries, now);
    assert forall|i: int, j: int|
        #![trigger saved.queue[i], saved.queue[j]]
        0 <= i < j < saved.queue.len() implies saved.queue[i].episode_id
        != saved.queue[j].episode_id by {
        assert(entries[i].0 != entries[j].0);
    }
    lemma_all_stamps_distinct(v.queue_stamps, entries, now);
    let stepped = queue::entry_in_state(v, episode_id, state, playlist, now);
    assert forall|i: int, j: int|
        #![trigger stepped.queue[i], stepped.queue[j]]
        0 <= i < j < stepped.queue.len() implies stepped.queue[i].episode_id
        != stepped.queue[j].episode_id by {
        assert(v.queue[i].episode_id != v.queue[j].episode_id);
    }
    let removed = queue::entry_removed(v, episode_id, now);
    match queue::entry_of(v, episode_id) {
        Some((_, p)) => {
            let kept = queue::queue_without(v.queue, episode_id);
            lemma_queue_without(v.queue, episode_id);
            assert forall|i: int, j: int|
                #![trigger removed.queue[i], removed.queue[j]]
                0 <= i < j < removed.queue.len() implies removed.queue[i].episode_id
                != removed.queue[j].episode_id by {
                assert(kept[i].episode_id != kept[j].episode_id);
            }
            lemma_stamps_distinct(v.queue_stamps, p, now);
        },
        None => {},
    }
}

// ── the shared change counter ───────────────────────────────────────────

/// Whoever watches the revision notices the change: the library is as it was, or
/// the revision is higher, or it has reached its highest value.
pub open spec fn noticed(v: replica::LibraryView, w: replica::LibraryView) -> bool {
    &&& w.revision >= v.revision
    &&& w == v || w.revision > v.revision || w.revision == i64::MAX
}

proof fn lemma_noticed_chain(
    a: replica::LibraryView,
    b: replica::LibraryView,
    c: replica::LibraryView,
)
    requires
        noticed(a, b),
        noticed(b, c),
    ensures
        noticed(a, c),
{
}

proof fn lemma_no_hits<T: Keyed>(rows: Seq<T::V>, key: Seq<char>)
    ensures
        tables::hits::<T>(rows, key) == 0 ==> forall|i: int|
            0 <= i < rows.len() ==> T::key(#[trigger] rows[i]) != key,
{
    tables::lemma_hits_bound::<T>(rows, key);
    tables::lemma_place::<T>(rows, key);
}

proof fn lemma_marking_noticed(
    v: replica::LibraryView,
    id: Seq<char>,
    now: Seq<char>,
    forget_resume: bool,
)
    ensures
        noticed(v, replica::episode_marked(v, id, now, forget_resume)),
{
    lemma_no_hits::<EpisodeRow>(v.episodes, id);
    if tables::hits::<EpisodeRow>(v.episodes, id) == 0 {
        assert(replica::rows_watched(v.episodes, id, now, forget_resume) =~= v.episodes) by {
            assert forall|i: int| 0 <= i < v.episodes.len() implies #[trigger] v.episodes[i].id
                != id by {
                assert(EpisodeRow::key(v.episodes[i]) != id);
            }
        }
    }
}

proof fn lemma_retiring_noticed(
    v: replica::LibraryView,
    id: Seq<char>,
    removed_at: Option<Seq<char>>,
    now: Seq<char>,
)
    ensures
        noticed(v, replica::retired(v, id, removed_at, now)),
{
    lemma_no_hits::<ShowRow>(v.shows, id);
    if tables::hits::<ShowRow>(v.shows, id) == 0 {
        assert(replica::rows_retired(v.shows, id, removed_at, now) =~= v.shows) by {
            assert forall|i: int| 0 <= i < v.shows.len() implies #[trigger] v.shows[i].id != id by {
                assert(ShowRow::key(v.shows[i]) != id);
            }
        }
    }
}

proof fn lemma_plays_noticed(
    v: replica::LibraryView,
    plays: Seq<engine::HistoryRowView>,
    now: Seq<char>,
    ids: Seq<Seq<char>>,
    forget_resume: bool,
)
    ensures
        noticed(v, replica::plays_stored(v, plays, now, ids, forget_resume)),
    decreases plays.len(),
{
    if plays.len() > 0 {
        lemma_plays_noticed(v, plays.drop_last(), now, ids, forget_resume);
        let before = replica::plays_stored(v, plays.drop_last(), now, ids, forget_resume);
        lemma_marking_noticed(before, plays.last().episode_id, now, forget_resume);
    }
}

/// Every advance is noticed.
pub proof fn law_advance_is_noticed(
    v: replica::LibraryView,
    entries: Seq<(Seq<char>, Seq<char>)>,
    now: Seq<char>,
    ids: Seq<Seq<char>>,
)
    ensures
        noticed(v, replica::advanced(v, entries, now, ids)),
{
    lemma_batches_noticed(v, replica::batches_of(entries), now, ids);
}

proof fn lemma_batches_noticed(
    v: replica::LibraryView,
    batches: Seq<replica::ShowBatchView>,
    now: Seq<char>,
    ids: Seq<Seq<char>>,
)
    ensures
        noticed(v, replica::batches_advanced(v, batches, now, ids)),
    decreases batches.len(),
{
    if batches.len() > 0 {
        lemma_batches_noticed(v, batches.drop_last(), now, ids);
        let before = replica::batches_advanced(v, batches.drop_last(), now, ids);
        let b = batches.last();
        let rest = ids.skip(before.history.len() - v.history.len());
        let plays = replica::plays_of(before, b.show_id, b.episode_ids, now);
        lemma_plays_noticed(before, plays, now, rest, true);
        let stored = replica::plays_stored(before, plays, now, rest, true);
        lemma_retiring_noticed(stored, b.show_id, Some(now), now);
        lemma_noticed_chain(v, before, stored);
        if replica::show_drains(before, b.show_id, b.episode_ids, now) {
            lemma_noticed_chain(v, stored, replica::retired(stored, b.show_id, Some(now), now));
        }
    }
}

/// Every change to one episode is noticed.
pub proof fn law_episode_changes_are_noticed(
    v: replica::LibraryView,
    show_id: Seq<char>,
    episode_id: Seq<char>,
    pos: Option<u64>,
    close: bool,
    track: replica::Track,
    value: Seq<char>,
    now: Seq<char>,
)
    ensures
        noticed(v, replica::deferred(v, show_id, episode_id, now)),
        noticed(v, replica::resumed(v, episode_id, pos, close, now)),
        noticed(v, replica::track_chosen(v, episode_id, track, value, now)),
{
    lemma_no_hits::<EpisodeRow>(v.episodes, episode_id);
    if tables::hits::<EpisodeRow>(v.episodes, episode_id) == 0 {
        assert forall|i: int| 0 <= i < v.episodes.len() implies #[trigger] v.episodes[i].id
            != episode_id by {
            assert(EpisodeRow::key(v.episodes[i]) != episode_id);
        }
        assert(replica::rows_resumed(v.episodes, episode_id, pos, now) =~= v.episodes);
        assert forall|p: i64|
            #[trigger] replica::rows_positioned(v.episodes, episode_id, p, now) == v.episodes by {
            assert(replica::rows_positioned(v.episodes, episode_id, p, now) =~= v.episodes);
        }
    }
}

proof fn lemma_reset_without_episodes(
    rows: Seq<tables::EpisodeRowView>,
    show_id: Seq<char>,
    now: Seq<char>,
)
    ensures
        library::episode_count(rows, show_id) == 0 ==> library::rows_reset(rows, show_id, now)
            == rows,
    decreases rows.len(),
{
    if rows.len() > 0 {
        lemma_reset_without_episodes(rows.drop_last(), show_id, now);
        if library::episode_count(rows, show_id) == 0 {
            let r = library::rows_reset(rows, show_id, now);
            assert(r.drop_last() =~= library::rows_reset(rows.drop_last(), show_id, now));
            assert forall|i: int| 0 <= i < rows.len() implies r[i] == rows[i] by {
                if i < rows.len() - 1 {
                    assert(r[i] == r.drop_last()[i]);
                }
            }
            assert(r =~= rows);
        }
    } else {
        assert(library::rows_reset(rows, show_id, now) =~= rows);
    }
}

proof fn lemma_history_kept_whole(rows: Seq<tables::HistoryEntryView>, show_id: Seq<char>)
    ensures
        library::history_without(rows, show_id).len() <= rows.len(),
        library::history_without(rows, show_id).len() == rows.len()
            ==> library::history_without(rows, show_id) == rows,
    decreases rows.len(),
{
    if rows.len() > 0 {
        lemma_history_kept_whole(rows.drop_last(), show_id);
        assert(rows.drop_last().push(rows.last()) =~= rows);
    }
}

/// Every change to a show is noticed.
pub proof fn law_show_changes_are_noticed(
    v: replica::LibraryView,
    show_id: Seq<char>,
    name: Option<Seq<char>>,
    root_path: Option<Seq<char>>,
    playlist: Option<Seq<char>>,
    removed_at: Option<Seq<char>>,
    now: Seq<char>,
    ids: Seq<Seq<char>>,
)
    ensures
        noticed(v, replica::retired(v, show_id, removed_at, now)),
        noticed(v, library::show_edited(v, show_id, name, root_path, playlist, now)),
        noticed(v, library::show_watched(v, show_id, now, ids)),
        noticed(v, library::show_unwatched(v, show_id, now)),
{
    lemma_retiring_noticed(v, show_id, removed_at, now);
    lemma_no_hits::<ShowRow>(v.shows, show_id);
    if tables::hits::<ShowRow>(v.shows, show_id) == 0 {
        assert forall|i: int| 0 <= i < v.shows.len() implies #[trigger] v.shows[i].id
            != show_id by {
            assert(ShowRow::key(v.shows[i]) != show_id);
        }
        assert(library::rows_edited(v.shows, show_id, name, root_path, playlist, now) =~= v.shows);
    }
    let plays = library::unwatched_plays(v.episodes, show_id, now);
    lemma_plays_noticed(v, plays, now, ids, false);
    let stored = replica::plays_stored(v, plays, now, ids, false);
    lemma_retiring_noticed(stored, show_id, Some(now), now);
    lemma_noticed_chain(v, stored, library::show_watched(v, show_id, now, ids));
    lemma_retiring_noticed(v, show_id, None, now);
    lemma_reset_without_episodes(v.episodes, show_id, now);
    lemma_history_kept_whole(v.history, show_id);
}

/// Adding and rescanning shows is noticed.
pub proof fn law_new_episodes_are_noticed(
    v: replica::LibraryView,
    playlist: Seq<char>,
    name: Seq<char>,
    root_path: Seq<char>,
    paths: Seq<Seq<char>>,
    now: Seq<char>,
    show_id: Seq<char>,
    ids: Seq<Seq<char>>,
)
    ensures
        noticed(
            v,
            library::show_added(v, playlist, name, root_path, paths, now, show_id, ids),
        ),
        noticed(v, library::rescanned(v, show_id, paths, now, ids)),
{
    let added = library::unknown_paths(paths, library::paths_in(v.episodes, show_id));
    if added.len() == 0 {
        let r = library::rescanned(v, show_id, paths, now, ids);
        assert(r.episodes =~= v.episodes);
        assert(r == v);
    }
}

proof fn lemma_no_playlist_hits(
    rows: Seq<tables::QueueRowView>,
    playlist: Seq<char>,
    now: Seq<char>,
)
    ensures
        queue::playlist_hits(rows, playlist) == 0 ==> queue::rows_stamped(rows, playlist, now)
            == rows,
    decreases rows.len(),
{
    let r = queue::rows_stamped(rows, playlist, now);
    if rows.len() > 0 {
        lemma_no_playlist_hits(rows.drop_last(), playlist, now);
        if queue::playlist_hits(rows, playlist) == 0 {
            assert(r.drop_last() =~= queue::rows_stamped(rows.drop_last(), playlist, now));
            assert forall|i: int| 0 <= i < rows.len() implies r[i] == rows[i] by {
                if i < rows.len() - 1 {
                    assert(r[i] == r.drop_last()[i]);
                }
            }
            assert(r =~= rows);
        }
    } else {
        assert(r =~= rows);
    }
}

proof fn lemma_entry_goes(rows: Seq<tables::QueueRowView>, episode_id: Seq<char>)
    ensures
        queue::queue_without(rows, episode_id).len() + tables::hits::<QueueRow>(rows, episode_id)
            == rows.len(),
    decreases rows.len(),
{
    if rows.len() > 0 {
        lemma_entry_goes(rows.drop_last(), episode_id);
    }
}

/// Every change to the stored round is noticed.
pub proof fn law_round_changes_are_noticed(
    v: replica::LibraryView,
    entries: Seq<queue::StoredEntryView>,
    episode_id: Seq<char>,
    state: Seq<char>,
    playlist: Seq<char>,
    now: Seq<char>,
)
    ensures
        noticed(v, queue::round_saved(v, entries, now)),
        noticed(v, queue::entry_in_state(v, episode_id, state, playlist, now)),
        noticed(v, queue::entry_removed(v, episode_id, now)),
{
    if entries.len() == 0 && v.queue.len() == 0 {
        assert(queue::queue_rows(entries, now) =~= v.queue);
    }
    lemma_no_hits::<QueueRow>(v.queue, episode_id);
    let set = queue::rows_in_state(v.queue, episode_id, state, now);
    if tables::hits::<QueueRow>(v.queue, episode_id) == 0 {
        assert(set =~= v.queue) by {
            assert forall|i: int| 0 <= i < v.queue.len() implies #[trigger] v.queue[i].episode_id
                != episode_id by {
                assert(QueueRow::key(v.queue[i]) != episode_id);
            }
        }
    }
    lemma_no_playlist_hits(set, playlist, now);
    lemma_entry_goes(v.queue, episode_id);
    tables::lemma_hits_bound::<QueueRow>(v.queue, episode_id);
}

} // verus!
