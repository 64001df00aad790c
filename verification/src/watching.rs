//! What watching comes to, row by row: which episodes are watched by an advance,
//! which shows it retires and which plays it records.

use vstd::prelude::*;
use vstd::utf8::*;

use crate::engine;
use crate::engine::Episode;
use crate::laws;
use crate::outcomes;
use crate::replica;
use crate::sorting;
use crate::tables;
use crate::tables::{EpisodeRow, Keyed, ShowRow};
use crate::text;

verus! {

/// Whether a show is in the library.
pub open spec fn has_show(v: replica::LibraryView, show_id: Seq<char>) -> bool {
    exists|s: int| 0 <= s < v.shows.len() && (#[trigger] v.shows[s]).id == show_id
}

/// Whether an advance of entries watches the episode of a row: it is unwatched, its
/// show is in the library, and the pair of the two is named.
pub open spec fn is_watched_by(
    v: replica::LibraryView,
    entries: Seq<(Seq<char>, Seq<char>)>,
    e: int,
) -> bool {
    &&& 0 <= e < v.episodes.len()
    &&& v.episodes[e].watched_at is None
    &&& has_show(v, v.episodes[e].show_id)
    &&& entries.contains((v.episodes[e].show_id, v.episodes[e].id))
}

/// Whether some batch names the episode of a row.
spec fn is_batched(batches: Seq<replica::ShowBatchView>, show_id: Seq<char>, id: Seq<char>) -> bool {
    exists|b: int|
        0 <= b < batches.len() && (#[trigger] batches[b]).show_id == show_id
            && batches[b].episode_ids.contains(id)
}

spec fn is_marked_by(
    v: replica::LibraryView,
    batches: Seq<replica::ShowBatchView>,
    e: int,
) -> bool {
    &&& 0 <= e < v.episodes.len()
    &&& v.episodes[e].watched_at is None
    &&& has_show(v, v.episodes[e].show_id)
    &&& is_batched(batches, v.episodes[e].show_id, v.episodes[e].id)
}

proof fn lemma_push_batch(
    batches: Seq<replica::ShowBatchView>,
    b: replica::ShowBatchView,
    show_id: Seq<char>,
    id: Seq<char>,
)
    ensures
        is_batched(batches.push(b), show_id, id) <==> is_batched(batches, show_id, id)
            || b.show_id == show_id && b.episode_ids.contains(id),
{
    let all = batches.push(b);
    if is_batched(batches, show_id, id) {
        let k = choose|k: int|
            0 <= k < batches.len() && (#[trigger] batches[k]).show_id == show_id
                && batches[k].episode_ids.contains(id);
        assert(all[k] == batches[k]);
    }
    if b.show_id == show_id && b.episode_ids.contains(id) {
        assert(all[batches.len() as int] == b);
    }
    if is_batched(all, show_id, id) {
        let k = choose|k: int|
            0 <= k < all.len() && (#[trigger] all[k]).show_id == show_id
                && all[k].episode_ids.contains(id);
        if k < batches.len() {
            assert(batches[k] == all[k]);
        }
    }
}

proof fn lemma_batched_names(
    batches: Seq<replica::ShowBatchView>,
    s: Seq<char>,
    e: Seq<char>,
    show_id: Seq<char>,
    id: Seq<char>,
)
    ensures
        is_batched(replica::batched(batches, s, e), show_id, id) <==> is_batched(
            batches,
            show_id,
            id,
        ) || s == show_id && e == id,
    decreases batches.len(),
{
    let one = replica::ShowBatchView { show_id: s, episode_ids: seq![e] };
    assert(one.episode_ids.contains(id) <==> e == id) by {
        assert(one.episode_ids[0] == e);
    }
    if batches.len() == 0 {
        assert(replica::batched(batches, s, e) =~= batches.push(one));
        lemma_push_batch(batches, one, show_id, id);
        assert(!is_batched(batches, show_id, id));
    } else {
        let front = batches.drop_last();
        let last = batches.last();
        assert(front.push(last) =~= batches);
        lemma_push_batch(front, last, show_id, id);
        if last.show_id == s {
            let grown = replica::ShowBatchView {
                show_id: s,
                episode_ids: last.episode_ids.push(e),
            };
            lemma_push_batch(front, grown, show_id, id);
            assert(grown.episode_ids.contains(id) <==> last.episode_ids.contains(id) || e == id) by {
                let n = last.episode_ids.len() as int;
                assert(grown.episode_ids[n] == e);
                if last.episode_ids.contains(id) {
                    let k = choose|k: int| 0 <= k < n && last.episode_ids[k] == id;
                    assert(grown.episode_ids[k] == id);
                }
                if grown.episode_ids.contains(id) {
                    let k = choose|k: int|
                        0 <= k < grown.episode_ids.len() && grown.episode_ids[k] == id;
                    if k < n {
                        assert(last.episode_ids[k] == id);
                    }
                }
            }
        } else if text::text_before(last.show_id, s) {
            lemma_push_batch(batches, one, show_id, id);
        } else {
            lemma_batched_names(front, s, e, show_id, id);
            lemma_push_batch(replica::batched(front, s, e), last, show_id, id);
        }
    }
}

proof fn lemma_batches_name(
    entries: Seq<(Seq<char>, Seq<char>)>,
    show_id: Seq<char>,
    id: Seq<char>,
)
    ensures
        is_batched(replica::batches_of(entries), show_id, id) <==> entries.contains((show_id, id)),
    decreases entries.len(),
{
    if entries.len() > 0 {
        let front = entries.drop_last();
        let last = entries.last();
        lemma_batches_name(front, show_id, id);
        lemma_batched_names(replica::batches_of(front), last.0, last.1, show_id, id);
        if front.contains((show_id, id)) {
            let k = choose|k: int| 0 <= k < front.len() && front[k] == (show_id, id);
            assert(entries[k] == (show_id, id));
        }
        if last == (show_id, id) {
            assert(entries[entries.len() - 1] == (show_id, id));
        }
        if entries.contains((show_id, id)) {
            let k = choose|k: int| 0 <= k < entries.len() && entries[k] == (show_id, id);
            if k < front.len() {
                assert(front[k] == (show_id, id));
            }
        }
    }
}

// ── one show ────────────────────────────────────────────────────────────

/// A row once its episode was watched to the end.
spec fn row_watched(r: tables::EpisodeRowView, now: Seq<char>) -> tables::EpisodeRowView {
    tables::EpisodeRowView { watched_at: Some(now), resume_pos: None, updated_at: now, ..r }
}

proof fn lemma_plays_rows(
    v: replica::LibraryView,
    plays: Seq<engine::HistoryRowView>,
    now: Seq<char>,
    ids: Seq<Seq<char>>,
    e: int,
)
    ensures
        ({
            let w = replica::plays_stored(v, plays, now, ids, true);
            &&& w.shows == v.shows
            &&& w.episodes.len() == v.episodes.len()
            &&& 0 <= e < v.episodes.len() ==> w.episodes[e] == if laws::is_played(
                plays,
                v.episodes[e].id,
            ) {
                row_watched(v.episodes[e], now)
            } else {
                v.episodes[e]
            }
            &&& w.history.len() == v.history.len() + plays.len()
        }),
    decreases plays.len(),
{
    if plays.len() > 0 {
        let front = plays.drop_last();
        lemma_plays_rows(v, front, now, ids, e);
        if 0 <= e < v.episodes.len() {
            let id = v.episodes[e].id;
            if laws::is_played(front, id) {
                let k = choose|k: int|
                    0 <= k < front.len() && (#[trigger] front[k]).episode_id == id;
                assert(plays[k].episode_id == id);
            }
            if plays.last().episode_id == id {
                assert(plays[plays.len() - 1].episode_id == id);
            }
            if laws::is_played(plays, id) {
                let k = choose|k: int|
                    0 <= k < plays.len() && (#[trigger] plays[k]).episode_id == id;
                if k < front.len() {
                    assert(front[k].episode_id == id);
                }
            }
        }
    }
}

proof fn lemma_plays_history(
    v: replica::LibraryView,
    plays: Seq<engine::HistoryRowView>,
    now: Seq<char>,
    ids: Seq<Seq<char>>,
    k: int,
)
    ensures
        ({
            let w = replica::plays_stored(v, plays, now, ids, true);
            &&& w.history.len() == v.history.len() + plays.len()
            &&& 0 <= k < v.history.len() ==> w.history[k] == v.history[k]
            &&& v.history.len() <= k < w.history.len() ==> w.history[k] == (
            tables::HistoryEntryView {
                id: ids[k - v.history.len()],
                show_id: plays[k - v.history.len()].show_id,
                episode_id: plays[k - v.history.len()].episode_id,
                relative_path: Some(plays[k - v.history.len()].relative_path),
                played_at: plays[k - v.history.len()].played_at,
            })
        }),
    decreases plays.len(),
{
    if plays.len() > 0 {
        lemma_plays_history(v, plays.drop_last(), now, ids, k);
    }
}

/// The episode of a row and where it stands in its show.
pub(crate) proof fn lemma_row_in_show(v: replica::LibraryView, e: int) -> (k: int)
    requires
        v.well_formed(),
        0 <= e < v.episodes.len(),
        has_show(v, v.episodes[e].show_id),
    ensures
        replica::show_of(v, v.episodes[e].show_id) matches Some(s) && 0 <= k < s.episodes.len()
            && s.episodes[k] == replica::to_episode(v.episodes[e]) && s.id == v.episodes[e].show_id,
{
    let show_id = v.episodes[e].show_id;
    let x = choose|x: int| 0 <= x < v.shows.len() && (#[trigger] v.shows[x]).id == show_id;
    assert(ShowRow::key(v.shows[x]) == show_id);
    tables::lemma_place::<ShowRow>(v.shows, show_id);
    let s = replica::show_of(v, show_id)->0;
    let raw = replica::episodes_in(v.episodes, show_id);
    sorting::lemma_in_order::<Episode>(raw);
    outcomes::lemma_episodes_in_has(v.episodes, show_id, e);
    assert(s.episodes.contains(replica::to_episode(v.episodes[e])));
    choose|k: int| 0 <= k < s.episodes.len() && s.episodes[k] == replica::to_episode(v.episodes[e])
}

pub(crate) proof fn lemma_show_in_rows(v: replica::LibraryView, show_id: Seq<char>, k: int) -> (e: int)
    requires
        replica::show_of(v, show_id) is Some,
        0 <= k < replica::show_of(v, show_id)->0.episodes.len(),
    ensures
        0 <= e < v.episodes.len(),
        v.episodes[e].show_id == show_id,
        replica::to_episode(v.episodes[e]) == replica::show_of(v, show_id)->0.episodes[k],
        has_show(v, show_id),
        replica::show_of(v, show_id)->0.id == show_id,
{
    let s = replica::show_of(v, show_id)->0;
    tables::lemma_place::<ShowRow>(v.shows, show_id);
    let x = tables::place::<ShowRow>(v.shows, show_id)->0;
    assert(ShowRow::key(v.shows[x]) == show_id);
    assert(v.shows[x].id == show_id);
    let raw = replica::episodes_in(v.episodes, show_id);
    sorting::lemma_in_order::<Episode>(raw);
    assert(s.episodes.contains(s.episodes[k]));
    laws::lemma_episodes_in_rows(v.episodes, show_id, s.episodes[k]);
    choose|e: int|
        0 <= e < v.episodes.len() && (#[trigger] v.episodes[e]).show_id == show_id
            && replica::to_episode(v.episodes[e]) == s.episodes[k]
}

/// Whether advancing one show's episodes marks a row.
pub(crate) open spec fn is_marked_in(
    v: replica::LibraryView,
    show_id: Seq<char>,
    ids: Seq<Seq<char>>,
    e: int,
) -> bool {
    &&& 0 <= e < v.episodes.len()
    &&& v.episodes[e].watched_at is None
    &&& v.episodes[e].show_id == show_id
    &&& has_show(v, show_id)
    &&& ids.contains(v.episodes[e].id)
}

/// A play of an advance is of a row that it marks.
pub(crate) proof fn lemma_play_row(
    v: replica::LibraryView,
    show_id: Seq<char>,
    episode_ids: Seq<Seq<char>>,
    now: Seq<char>,
    k: int,
) -> (e: int)
    requires
        v.well_formed(),
        0 <= k < replica::plays_of(v, show_id, episode_ids, now).len(),
    ensures
        is_marked_in(v, show_id, episode_ids, e),
        replica::plays_of(v, show_id, episode_ids, now)[k] == (engine::HistoryRowView {
            show_id,
            episode_id: v.episodes[e].id,
            relative_path: v.episodes[e].relative_path,
            played_at: now,
        }),
{
    let s = replica::show_of(v, show_id)->0;
    outcomes::law_advance_records_each_watch_once(s.id, s.episodes, episode_ids, now, 0, 0, k);
    let rows = engine::plays(s.id, s.episodes, episode_ids, now);
    let m = choose|m: int|
        #![trigger outcomes::is_newly_watched(s.episodes, episode_ids, m)]
        outcomes::is_newly_watched(s.episodes, episode_ids, m) && outcomes::is_play_of(
            rows[k],
            s.id,
            s.episodes[m],
            now,
        );
    lemma_show_in_rows(v, show_id, m)
}

/// A row that an advance marks has a play.
proof fn lemma_marked_row_is_played(
    v: replica::LibraryView,
    show_id: Seq<char>,
    episode_ids: Seq<Seq<char>>,
    now: Seq<char>,
    e: int,
)
    requires
        v.well_formed(),
        is_marked_in(v, show_id, episode_ids, e),
    ensures
        laws::is_played(replica::plays_of(v, show_id, episode_ids, now), v.episodes[e].id),
{
    let k = lemma_row_in_show(v, e);
    let s = replica::show_of(v, show_id)->0;
    laws::lemma_show_episodes_distinct(v, show_id);
    assert(outcomes::is_newly_watched(s.episodes, episode_ids, k)) by {
        assert forall|j: int| 0 <= j < k implies (#[trigger] s.episodes[j]).id
            != s.episodes[k].id by {
        }
    }
    outcomes::law_advance_records_each_watch_once(s.id, s.episodes, episode_ids, now, k, 0, 0);
    let rows = engine::plays(s.id, s.episodes, episode_ids, now);
    let m = choose|m: int|
        0 <= m < rows.len() && outcomes::is_play_of(
            #[trigger] rows[m],
            s.id,
            s.episodes[k],
            now,
        );
    assert(rows[m].episode_id == v.episodes[e].id);
}

proof fn lemma_rows_differ(v: replica::LibraryView, d: int, e: int)
    requires
        v.well_formed(),
        0 <= d < v.episodes.len(),
        0 <= e < v.episodes.len(),
        v.episodes[d].id == v.episodes[e].id,
    ensures
        d == e,
{
    if d < e {
        assert(EpisodeRow::key(v.episodes[d]) != EpisodeRow::key(v.episodes[e]));
    } else if e < d {
        assert(EpisodeRow::key(v.episodes[e]) != EpisodeRow::key(v.episodes[d]));
    }
}

proof fn lemma_one_show_episode(
    v: replica::LibraryView,
    show_id: Seq<char>,
    episode_ids: Seq<Seq<char>>,
    now: Seq<char>,
    ids: Seq<Seq<char>>,
    e: int,
)
    requires
        v.well_formed(),
        0 <= e < v.episodes.len(),
    ensures
        ({
            let w = replica::show_advanced(v, show_id, episode_ids, now, ids);
            &&& w.episodes.len() == v.episodes.len()
            &&& w.episodes[e] == if is_marked_in(v, show_id, episode_ids, e) {
                row_watched(v.episodes[e], now)
            } else {
                v.episodes[e]
            }
        }),
{
    let plays = replica::plays_of(v, show_id, episode_ids, now);
    lemma_plays_rows(v, plays, now, ids, e);
    if is_marked_in(v, show_id, episode_ids, e) {
        lemma_marked_row_is_played(v, show_id, episode_ids, now, e);
    } else if laws::is_played(plays, v.episodes[e].id) {
        let k = choose|k: int|
            0 <= k < plays.len() && (#[trigger] plays[k]).episode_id == v.episodes[e].id;
        let d = lemma_play_row(v, show_id, episode_ids, now, k);
        lemma_rows_differ(v, d, e);
    }
}

/// Whether every episode of a show is watched.
pub open spec fn is_all_watched(v: replica::LibraryView, show_id: Seq<char>) -> bool {
    forall|e: int|
        0 <= e < v.episodes.len() && (#[trigger] v.episodes[e]).show_id == show_id
            ==> v.episodes[e].watched_at is Some
}

proof fn lemma_one_show_drains(
    v: replica::LibraryView,
    show_id: Seq<char>,
    episode_ids: Seq<Seq<char>>,
    now: Seq<char>,
    ids: Seq<Seq<char>>,
)
    requires
        v.well_formed(),
    ensures
        replica::show_drains(v, show_id, episode_ids, now) <==> (exists|e: int| #[trigger]
            is_marked_in(v, show_id, episode_ids, e)) && is_all_watched(
            replica::show_advanced(v, show_id, episode_ids, now, ids),
            show_id,
        ),
{
    let w = replica::show_advanced(v, show_id, episode_ids, now, ids);
    let plays = replica::plays_of(v, show_id, episode_ids, now);
    if exists|e: int| #[trigger] is_marked_in(v, show_id, episode_ids, e) {
        let e = choose|e: int| #[trigger] is_marked_in(v, show_id, episode_ids, e);
        lemma_marked_row_is_played(v, show_id, episode_ids, now, e);
        let d = lemma_row_in_show(v, e);
        let s = replica::show_of(v, show_id)->0;
        outcomes::law_advance_outcome(s, episode_ids, now);
        let t = engine::advanced_show(s, episode_ids, now);
        if replica::show_drains(v, show_id, episode_ids, now) {
            assert forall|x: int|
                0 <= x < w.episodes.len() && (#[trigger] w.episodes[x]).show_id
                    == show_id implies w.episodes[x].watched_at is Some by {
                lemma_plays_rows(v, plays, now, ids, x);
                lemma_one_show_episode(v, show_id, episode_ids, now, ids, x);
                let k = lemma_row_in_show(v, x);
                assert(t.episodes[k].watched_at is Some);
                if outcomes::is_newly_watched(s.episodes, episode_ids, k) {
                    assert(is_marked_in(v, show_id, episode_ids, x));
                }
            }
        }
        if is_all_watched(w, show_id) {
            assert forall|k: int| 0 <= k < t.episodes.len() implies (
            #[trigger] t.episodes[k]).watched_at is Some by {
                let x = lemma_show_in_rows(v, show_id, k);
                lemma_plays_rows(v, plays, now, ids, x);
                lemma_one_show_episode(v, show_id, episode_ids, now, ids, x);
                assert(w.episodes[x].watched_at is Some);
                if is_marked_in(v, show_id, episode_ids, x) {
                    laws::lemma_show_episodes_distinct(v, show_id);
                    assert forall|j: int| 0 <= j < k implies (#[trigger] s.episodes[j]).id
                        != s.episodes[k].id by {
                    }
                    assert(outcomes::is_newly_watched(s.episodes, episode_ids, k));
                }
            }
            assert forall|j: int| 0 <= j < d implies (#[trigger] s.episodes[j]).id
                != s.episodes[d].id by {
                laws::lemma_show_episodes_distinct(v, show_id);
                assert(s.episodes[j].id != s.episodes[d].id);
            }
            assert(outcomes::is_newly_watched(s.episodes, episode_ids, d));
        }
    } else if replica::show_drains(v, show_id, episode_ids, now) {
        let e = lemma_play_row(v, show_id, episode_ids, now, 0);
        assert(is_marked_in(v, show_id, episode_ids, e));
    }
}

// ── several shows ───────────────────────────────────────────────────────

proof fn lemma_has_show(v: replica::LibraryView, w: replica::LibraryView, show_id: Seq<char>)
    requires
        w.shows.len() == v.shows.len(),
        forall|i: int| 0 <= i < v.shows.len() ==> (#[trigger] w.shows[i]).id == v.shows[i].id,
    ensures
        has_show(w, show_id) == has_show(v, show_id),
{
    if has_show(v, show_id) {
        let s = choose|s: int| 0 <= s < v.shows.len() && (#[trigger] v.shows[s]).id == show_id;
        assert(w.shows[s].id == show_id);
    }
    if has_show(w, show_id) {
        let s = choose|s: int| 0 <= s < w.shows.len() && (#[trigger] w.shows[s]).id == show_id;
        assert(v.shows[s].id == show_id);
    }
}

proof fn lemma_last_batch(
    batches: Seq<replica::ShowBatchView>,
    show_id: Seq<char>,
    id: Seq<char>,
)
    requires
        batches.len() > 0,
    ensures
        is_batched(batches, show_id, id) <==> is_batched(batches.drop_last(), show_id, id)
            || batches.last().show_id == show_id && batches.last().episode_ids.contains(id),
{
    lemma_push_batch(batches.drop_last(), batches.last(), show_id, id);
    assert(batches.drop_last().push(batches.last()) =~= batches);
}

proof fn lemma_batches_episode(
    v: replica::LibraryView,
    batches: Seq<replica::ShowBatchView>,
    now: Seq<char>,
    ids: Seq<Seq<char>>,
    e: int,
)
    requires
        v.well_formed(),
        0 <= e < v.episodes.len(),
    ensures
        replica::batches_advanced(v, batches, now, ids).episodes.len() == v.episodes.len(),
        replica::batches_advanced(v, batches, now, ids).episodes[e] == if is_marked_by(
            v,
            batches,
            e,
        ) {
            row_watched(v.episodes[e], now)
        } else {
            v.episodes[e]
        },
    decreases batches.len(),
{
    if batches.len() > 0 {
        let front = batches.drop_last();
        let b = batches.last();
        let u = replica::batches_advanced(v, front, now, ids);
        lemma_batches_episode(v, front, now, ids, e);
        laws::lemma_batches_keep_shows(v, front, now, ids);
        lemma_has_show(v, u, v.episodes[e].show_id);
        lemma_last_batch(batches, v.episodes[e].show_id, v.episodes[e].id);
        lemma_one_show_episode(
            u,
            b.show_id,
            b.episode_ids,
            now,
            ids.skip(u.history.len() - v.history.len()),
            e,
        );
    }
}

/// Whether advancing batches marks an episode of a show.
spec fn marks_of(
    v: replica::LibraryView,
    batches: Seq<replica::ShowBatchView>,
    show_id: Seq<char>,
) -> bool {
    exists|e: int| #[trigger] is_marked_by(v, batches, e) && v.episodes[e].show_id == show_id
}

proof fn lemma_batches_show(
    v: replica::LibraryView,
    batches: Seq<replica::ShowBatchView>,
    now: Seq<char>,
    ids: Seq<Seq<char>>,
    s: int,
)
    requires
        v.well_formed(),
        0 <= s < v.shows.len(),
    ensures
        ({
            let w = replica::batches_advanced(v, batches, now, ids);
            &&& w.shows.len() == v.shows.len()
            &&& w.shows[s] == (tables::ShowRowView {
                removed_at: if marks_of(v, batches, v.shows[s].id) && is_all_watched(
                    w,
                    v.shows[s].id,
                ) {
                    Some(now)
                } else {
                    v.shows[s].removed_at
                },
                updated_at: w.shows[s].updated_at,
                ..v.shows[s]
            })
            &&& replica::batches_drained(v, batches, now, ids).contains(v.shows[s].id)
                == (marks_of(v, batches, v.shows[s].id) && is_all_watched(w, v.shows[s].id))
        }),
    decreases batches.len(),
{
    let w = replica::batches_advanced(v, batches, now, ids);
    let id = v.shows[s].id;
    if batches.len() == 0 {
        assert(!is_batched(batches, id, id));
        assert(!marks_of(v, batches, id));
    } else {
        let front = batches.drop_last();
        let b = batches.last();
        let u = replica::batches_advanced(v, front, now, ids);
        let rest = ids.skip(u.history.len() - v.history.len());
        lemma_batches_show(v, front, now, ids, s);
        laws::lemma_batches_keep_shows(v, front, now, ids);
        laws::lemma_batches_keep_shows(v, batches, now, ids);
        let plays = replica::plays_of(u, b.show_id, b.episode_ids, now);
        lemma_plays_rows(u, plays, now, rest, 0);
        lemma_one_show_drains(u, b.show_id, b.episode_ids, now, rest);
        assert(v.shows[s].id == id);
        assert(has_show(v, id));
        lemma_has_show(v, u, id);
        assert forall|e: int| 0 <= e < v.episodes.len() implies #[trigger] is_marked_by(
            v,
            batches,
            e,
        ) == (is_marked_by(v, front, e) || is_marked_in(u, b.show_id, b.episode_ids, e))
            && u.episodes[e].show_id == v.episodes[e].show_id && w.episodes[e].show_id
            == v.episodes[e].show_id && (is_marked_by(v, batches, e) ==> w.episodes[e].watched_at
            is Some) && (is_marked_in(u, b.show_id, b.episode_ids, e) ==> u.episodes[e].watched_at
            is None) && (!is_marked_in(u, b.show_id, b.episode_ids, e) ==> w.episodes[e]
            == u.episodes[e]) by {
            lemma_batches_episode(v, front, now, ids, e);
            lemma_batches_episode(v, batches, now, ids, e);
            lemma_one_show_episode(u, b.show_id, b.episode_ids, now, rest, e);
            lemma_has_show(v, u, v.episodes[e].show_id);
            lemma_last_batch(batches, v.episodes[e].show_id, v.episodes[e].id);
        }
        let drains = replica::show_drains(u, b.show_id, b.episode_ids, now);
        vstd::seq_lib::lemma_seq_contains_after_push(
            replica::batches_drained(v, front, now, ids),
            b.show_id,
            id,
        );
        if b.show_id != id {
            assert(is_all_watched(u, id) == is_all_watched(w, id)) by {
                if is_all_watched(u, id) {
                    assert forall|e: int|
                        0 <= e < w.episodes.len() && (#[trigger] w.episodes[e]).show_id
                            == id implies w.episodes[e].watched_at is Some by {
                        assert(is_marked_by(v, batches, e) == (is_marked_by(v, front, e)
                            || is_marked_in(u, b.show_id, b.episode_ids, e)));
                        assert(u.episodes[e].watched_at is Some);
                    }
                }
                if is_all_watched(w, id) {
                    assert forall|e: int|
                        0 <= e < u.episodes.len() && (#[trigger] u.episodes[e]).show_id
                            == id implies u.episodes[e].watched_at is Some by {
                        assert(is_marked_by(v, batches, e) == (is_marked_by(v, front, e)
                            || is_marked_in(u, b.show_id, b.episode_ids, e)));
                        assert(w.episodes[e].watched_at is Some);
                    }
                }
            }
            assert(marks_of(v, batches, id) == marks_of(v, front, id)) by {
                if marks_of(v, batches, id) {
                    let e = choose|e: int|
                        #[trigger] is_marked_by(v, batches, e) && v.episodes[e].show_id == id;
                    assert(is_marked_by(v, front, e));
                }
                if marks_of(v, front, id) {
                    let e = choose|e: int|
                        #[trigger] is_marked_by(v, front, e) && v.episodes[e].show_id == id;
                    assert(is_marked_by(v, batches, e));
                }
            }
        } else {
            if exists|e: int| #[trigger] is_marked_in(u, b.show_id, b.episode_ids, e) {
                let e = choose|e: int| #[trigger] is_marked_in(u, b.show_id, b.episode_ids, e);
                assert(is_marked_by(v, batches, e));
                assert(marks_of(v, batches, id));
                assert(!is_all_watched(u, id)) by {
                    assert(u.episodes[e].watched_at is None);
                }
            } else {
                assert(is_all_watched(u, id) == is_all_watched(w, id)) by {
                    if is_all_watched(u, id) {
                        assert forall|e: int|
                            0 <= e < w.episodes.len() && (#[trigger] w.episodes[e]).show_id
                                == id implies w.episodes[e].watched_at is Some by {
                            assert(is_marked_by(v, batches, e) == (is_marked_by(v, front, e)
                                || is_marked_in(u, b.show_id, b.episode_ids, e)));
                            assert(u.episodes[e].watched_at is Some);
                        }
                    }
                    if is_all_watched(w, id) {
                        assert forall|e: int|
                            0 <= e < u.episodes.len() && (#[trigger] u.episodes[e]).show_id
                                == id implies u.episodes[e].watched_at is Some by {
                            assert(is_marked_by(v, batches, e) == (is_marked_by(v, front, e)
                                || is_marked_in(u, b.show_id, b.episode_ids, e)));
                            assert(w.episodes[e].watched_at is Some);
                        }
                    }
                }
                assert(marks_of(v, batches, id) == marks_of(v, front, id)) by {
                    if marks_of(v, batches, id) {
                        let e = choose|e: int|
                            #[trigger] is_marked_by(v, batches, e) && v.episodes[e].show_id == id;
                        assert(is_marked_by(v, front, e));
                    }
                    if marks_of(v, front, id) {
                        let e = choose|e: int|
                            #[trigger] is_marked_by(v, front, e) && v.episodes[e].show_id == id;
                        assert(is_marked_by(v, batches, e));
                    }
                }
            }
        }
    }
}

proof fn lemma_batches_history(
    v: replica::LibraryView,
    batches: Seq<replica::ShowBatchView>,
    now: Seq<char>,
    ids: Seq<Seq<char>>,
    k: int,
) -> (e: int)
    requires
        v.well_formed(),
        0 <= k < replica::batches_advanced(v, batches, now, ids).history.len(),
    ensures
        ({
            let w = replica::batches_advanced(v, batches, now, ids);
            &&& w.history.len() >= v.history.len()
            &&& k < v.history.len() ==> w.history[k] == v.history[k]
            &&& k >= v.history.len() ==> is_marked_by(v, batches, e) && w.history[k] == (
            tables::HistoryEntryView {
                id: w.history[k].id,
                show_id: v.episodes[e].show_id,
                episode_id: v.episodes[e].id,
                relative_path: Some(v.episodes[e].relative_path),
                played_at: now,
            })
            &&& k >= v.history.len() && w.history.len() - v.history.len() <= ids.len()
                ==> w.history[k].id == ids[k - v.history.len()]
        }),
    decreases batches.len(),
{
    if batches.len() == 0 {
        0
    } else {
        let front = batches.drop_last();
        let b = batches.last();
        let u = replica::batches_advanced(v, front, now, ids);
        let n = u.history.len() - v.history.len();
        let rest = ids.skip(n);
        let plays = replica::plays_of(u, b.show_id, b.episode_ids, now);
        lemma_plays_history(u, plays, now, rest, k);
        laws::lemma_batches_keep_shows(v, front, now, ids);
        if u.history.len() > 0 {
            lemma_batches_history(v, front, now, ids, 0);
        }
        lemma_history_grows(v, front, now, ids);
        if k < u.history.len() {
            let e = lemma_batches_history(v, front, now, ids, k);
            if k >= v.history.len() {
                lemma_last_batch(batches, v.episodes[e].show_id, v.episodes[e].id);
            }
            e
        } else {
            let e = lemma_play_row(u, b.show_id, b.episode_ids, now, k - u.history.len());
            lemma_batches_episode(v, front, now, ids, e);
            lemma_has_show(v, u, v.episodes[e].show_id);
            lemma_last_batch(batches, v.episodes[e].show_id, v.episodes[e].id);
            e
        }
    }
}

proof fn lemma_history_grows(
    v: replica::LibraryView,
    batches: Seq<replica::ShowBatchView>,
    now: Seq<char>,
    ids: Seq<Seq<char>>,
)
    ensures
        replica::batches_advanced(v, batches, now, ids).history.len() >= v.history.len(),
    decreases batches.len(),
{
    if batches.len() > 0 {
        let front = batches.drop_last();
        let b = batches.last();
        let u = replica::batches_advanced(v, front, now, ids);
        lemma_history_grows(v, front, now, ids);
        let rest = ids.skip(u.history.len() - v.history.len());
        lemma_plays_history(u, replica::plays_of(u, b.show_id, b.episode_ids, now), now, rest, 0);
    }
}

proof fn lemma_marked_is_recorded(
    v: replica::LibraryView,
    batches: Seq<replica::ShowBatchView>,
    now: Seq<char>,
    ids: Seq<Seq<char>>,
    e: int,
) -> (k: int)
    requires
        v.well_formed(),
        is_marked_by(v, batches, e),
    ensures
        ({
            let w = replica::batches_advanced(v, batches, now, ids);
            v.history.len() <= k < w.history.len() && w.history[k].episode_id == v.episodes[e].id
        }),
    decreases batches.len(),
{
    if batches.len() == 0 {
        assert(false);
        0
    } else {
        let front = batches.drop_last();
        let b = batches.last();
        let u = replica::batches_advanced(v, front, now, ids);
        let rest = ids.skip(u.history.len() - v.history.len());
        let plays = replica::plays_of(u, b.show_id, b.episode_ids, now);
        laws::lemma_batches_keep_shows(v, front, now, ids);
        lemma_history_grows(v, front, now, ids);
        lemma_batches_episode(v, front, now, ids, e);
        lemma_has_show(v, u, v.episodes[e].show_id);
        lemma_last_batch(batches, v.episodes[e].show_id, v.episodes[e].id);
        if is_marked_by(v, front, e) {
            let k = lemma_marked_is_recorded(v, front, now, ids, e);
            lemma_plays_history(u, plays, now, rest, k);
            k
        } else {
            lemma_marked_row_is_played(u, b.show_id, b.episode_ids, now, e);
            let m = choose|m: int|
                0 <= m < plays.len() && (#[trigger] plays[m]).episode_id == u.episodes[e].id;
            let k = u.history.len() + m;
            lemma_plays_history(u, plays, now, rest, k);
            k
        }
    }
}

proof fn lemma_recorded_once(
    v: replica::LibraryView,
    batches: Seq<replica::ShowBatchView>,
    now: Seq<char>,
    ids: Seq<Seq<char>>,
    j: int,
    k: int,
)
    requires
        v.well_formed(),
        v.history.len() <= j < k < replica::batches_advanced(v, batches, now, ids).history.len(),
    ensures
        replica::batches_advanced(v, batches, now, ids).history[j].episode_id
            != replica::batches_advanced(v, batches, now, ids).history[k].episode_id,
    decreases batches.len(),
{
    if batches.len() > 0 {
        let front = batches.drop_last();
        let b = batches.last();
        let u = replica::batches_advanced(v, front, now, ids);
        let rest = ids.skip(u.history.len() - v.history.len());
        let plays = replica::plays_of(u, b.show_id, b.episode_ids, now);
        laws::lemma_batches_keep_shows(v, front, now, ids);
        lemma_history_grows(v, front, now, ids);
        lemma_plays_history(u, plays, now, rest, j);
        lemma_plays_history(u, plays, now, rest, k);
        if k < u.history.len() {
            lemma_recorded_once(v, front, now, ids, j, k);
        } else if j >= u.history.len() {
            let s = replica::show_of(u, b.show_id)->0;
            outcomes::law_advance_records_each_watch_once(
                s.id,
                s.episodes,
                b.episode_ids,
                now,
                0,
                j - u.history.len(),
                k - u.history.len(),
            );
        } else {
            let d = lemma_batches_history(v, front, now, ids, j);
            let e = lemma_play_row(u, b.show_id, b.episode_ids, now, k - u.history.len());
            lemma_batches_episode(v, front, now, ids, d);
            if u.history[j].episode_id == u.episodes[e].id {
                lemma_rows_differ(u, d, e);
            }
        }
    }
}

/// An advance watches exactly the named episodes that were unwatched: each of them
/// at the time, with its resume point forgotten. Every other episode is as it was.
pub proof fn law_advance_watches_the_named(
    v: replica::LibraryView,
    entries: Seq<(Seq<char>, Seq<char>)>,
    now: Seq<char>,
    ids: Seq<Seq<char>>,
    e: int,
)
    requires
        v.well_formed(),
        0 <= e < v.episodes.len(),
    ensures
        ({
            let w = replica::advanced(v, entries, now, ids);
            &&& w.episodes.len() == v.episodes.len()
            &&& is_watched_by(v, entries, e) ==> w.episodes[e] == (tables::EpisodeRowView {
                watched_at: Some(now),
                resume_pos: None,
                updated_at: now,
                ..v.episodes[e]
            })
            &&& !is_watched_by(v, entries, e) ==> w.episodes[e] == v.episodes[e]
        }),
{
    lemma_batches_episode(v, replica::batches_of(entries), now, ids, e);
    lemma_batches_name(entries, v.episodes[e].show_id, v.episodes[e].id);
}

proof fn lemma_drained_show(
    v: replica::LibraryView,
    batches: Seq<replica::ShowBatchView>,
    now: Seq<char>,
    ids: Seq<Seq<char>>,
    i: int,
) -> (s: int)
    requires
        0 <= i < replica::batches_drained(v, batches, now, ids).len(),
        v.well_formed(),
    ensures
        0 <= s < v.shows.len(),
        v.shows[s].id == replica::batches_drained(v, batches, now, ids)[i],
    decreases batches.len(),
{
    let front = batches.drop_last();
    let b = batches.last();
    let u = replica::batches_advanced(v, front, now, ids);
    if i < replica::batches_drained(v, front, now, ids).len() {
        lemma_drained_show(v, front, now, ids, i)
    } else {
        laws::lemma_batches_keep_shows(v, front, now, ids);
        lemma_one_show_drains(u, b.show_id, b.episode_ids, now, ids);
        let e = choose|e: int| #[trigger] is_marked_in(u, b.show_id, b.episode_ids, e);
        lemma_has_show(v, u, b.show_id);
        choose|s: int| 0 <= s < v.shows.len() && (#[trigger] v.shows[s]).id == b.show_id
    }
}

proof fn lemma_drained_once(
    v: replica::LibraryView,
    batches: Seq<replica::ShowBatchView>,
    now: Seq<char>,
    ids: Seq<Seq<char>>,
    i: int,
    j: int,
)
    requires
        v.well_formed(),
        0 <= i < j < replica::batches_drained(v, batches, now, ids).len(),
    ensures
        replica::batches_drained(v, batches, now, ids)[i] != replica::batches_drained(
            v,
            batches,
            now,
            ids,
        )[j],
    decreases batches.len(),
{
    let front = batches.drop_last();
    let b = batches.last();
    let u = replica::batches_advanced(v, front, now, ids);
    let drained = replica::batches_drained(v, front, now, ids);
    if j < drained.len() {
        lemma_drained_once(v, front, now, ids, i, j);
    } else {
        let s = lemma_drained_show(v, front, now, ids, i);
        assert(drained.contains(drained[i]));
        lemma_batches_show(v, front, now, ids, s);
        laws::lemma_batches_keep_shows(v, front, now, ids);
        lemma_one_show_drains(u, b.show_id, b.episode_ids, now, ids);
        let e = choose|e: int| #[trigger] is_marked_in(u, b.show_id, b.episode_ids, e);
        assert(u.episodes[e].show_id == b.show_id);
        assert(!is_all_watched(u, b.show_id));
    }
}

/// The shows that an advance tells of as finished are exactly those of which it
/// watches an episode and leaves none unwatched, each once; the number that it tells
/// is that of the plays it records.
pub proof fn law_advance_tells_what_it_finished(
    v: replica::LibraryView,
    entries: Seq<(Seq<char>, Seq<char>)>,
    now: Seq<char>,
    ids: Seq<Seq<char>>,
    s: int,
    i: int,
    j: int,
)
    requires
        v.well_formed(),
    ensures
        ({
            let w = replica::advanced(v, entries, now, ids);
            let told = replica::batches_drained(v, replica::batches_of(entries), now, ids);
            &&& 0 <= s < v.shows.len() ==> (told.contains(v.shows[s].id) <==> (exists|e: int|
                #[trigger] is_watched_by(v, entries, e) && v.episodes[e].show_id
                    == v.shows[s].id) && is_all_watched(w, v.shows[s].id))
            &&& 0 <= i < told.len() ==> has_show(v, told[i])
            &&& 0 <= i < j < told.len() ==> told[i] != told[j]
            &&& replica::newly_watched(v, entries, now, ids) == w.history.len() - v.history.len()
        }),
{
    let batches = replica::batches_of(entries);
    let told = replica::batches_drained(v, batches, now, ids);
    if 0 <= i < told.len() {
        let x = lemma_drained_show(v, batches, now, ids, i);
        assert(v.shows[x].id == told[i]);
    }
    if 0 <= i < j < told.len() {
        lemma_drained_once(v, batches, now, ids, i, j);
    }
    if 0 <= s < v.shows.len() {
        lemma_batches_show(v, batches, now, ids, s);
        let id = v.shows[s].id;
        assert forall|e: int| 0 <= e < v.episodes.len() implies #[trigger] is_watched_by(
            v,
            entries,
            e,
        ) == is_marked_by(v, batches, e) by {
            lemma_batches_name(entries, v.episodes[e].show_id, v.episodes[e].id);
        }
        if marks_of(v, batches, id) {
            let e = choose|e: int|
                #[trigger] is_marked_by(v, batches, e) && v.episodes[e].show_id == id;
            assert(is_watched_by(v, entries, e));
        }
        if exists|e: int| #[trigger] is_watched_by(v, entries, e) && v.episodes[e].show_id == id {
            let e = choose|e: int|
                #[trigger] is_watched_by(v, entries, e) && v.episodes[e].show_id == id;
            assert(is_marked_by(v, batches, e));
        }
    }
}

/// An advance retires a show if and only if it watches one of the show's episodes
/// and leaves none unwatched; of no show does it change anything else.
pub proof fn law_advance_retires_what_it_finishes(
    v: replica::LibraryView,
    entries: Seq<(Seq<char>, Seq<char>)>,
    now: Seq<char>,
    ids: Seq<Seq<char>>,
    s: int,
)
    requires
        v.well_formed(),
        0 <= s < v.shows.len(),
    ensures
        ({
            let w = replica::advanced(v, entries, now, ids);
            let finishes = (exists|e: int|
                #[trigger] is_watched_by(v, entries, e) && v.episodes[e].show_id
                    == v.shows[s].id) && is_all_watched(w, v.shows[s].id);
            &&& w.shows.len() == v.shows.len()
            &&& finishes ==> w.shows[s].removed_at == Some(now)
            &&& !finishes ==> w.shows[s].removed_at == v.shows[s].removed_at
            &&& w.shows[s] == (tables::ShowRowView {
                removed_at: w.shows[s].removed_at,
                updated_at: w.shows[s].updated_at,
                ..v.shows[s]
            })
        }),
{
    let batches = replica::batches_of(entries);
    lemma_batches_show(v, batches, now, ids, s);
    assert forall|e: int| 0 <= e < v.episodes.len() implies #[trigger] is_watched_by(v, entries, e)
        == is_marked_by(v, batches, e) by {
        lemma_batches_name(entries, v.episodes[e].show_id, v.episodes[e].id);
    }
    let id = v.shows[s].id;
    if marks_of(v, batches, id) {
        let e = choose|e: int| #[trigger] is_marked_by(v, batches, e) && v.episodes[e].show_id == id;
        assert(is_watched_by(v, entries, e));
    }
    if exists|e: int| #[trigger] is_watched_by(v, entries, e) && v.episodes[e].show_id == id {
        let e = choose|e: int|
            #[trigger] is_watched_by(v, entries, e) && v.episodes[e].show_id == id;
        assert(is_marked_by(v, batches, e));
    }
}

/// An advance adds to the watch history one row for each episode that it watches,
/// in that episode's name and at the time, and keeps every row that was there.
pub proof fn law_advance_records_what_it_watches(
    v: replica::LibraryView,
    entries: Seq<(Seq<char>, Seq<char>)>,
    now: Seq<char>,
    ids: Seq<Seq<char>>,
    e: int,
    j: int,
    k: int,
)
    requires
        v.well_formed(),
    ensures
        ({
            let old_rows = v.history;
            let rows = replica::advanced(v, entries, now, ids).history;
            &&& rows.len() >= old_rows.len()
            &&& 0 <= k < old_rows.len() ==> rows[k] == old_rows[k]
            &&& old_rows.len() <= k < rows.len() ==> exists|x: int|
                #[trigger] is_watched_by(v, entries, x) && rows[k] == (tables::HistoryEntryView {
                    id: rows[k].id,
                    show_id: v.episodes[x].show_id,
                    episode_id: v.episodes[x].id,
                    relative_path: Some(v.episodes[x].relative_path),
                    played_at: now,
                })
            &&& old_rows.len() <= k < rows.len() && rows.len() - old_rows.len() <= ids.len()
                ==> rows[k].id == ids[k - old_rows.len()]
            &&& is_watched_by(v, entries, e) ==> exists|x: int|
                old_rows.len() <= x < rows.len() && (#[trigger] rows[x]).episode_id
                    == v.episodes[e].id
            &&& old_rows.len() <= j < k < rows.len() ==> rows[j].episode_id != rows[k].episode_id
        }),
{
    let batches = replica::batches_of(entries);
    let rows = replica::advanced(v, entries, now, ids).history;
    lemma_history_grows(v, batches, now, ids);
    if 0 <= k < rows.len() {
        let x = lemma_batches_history(v, batches, now, ids, k);
        if k >= v.history.len() {
            lemma_batches_name(entries, v.episodes[x].show_id, v.episodes[x].id);
            assert(is_watched_by(v, entries, x));
            if v.history.len() <= j < k {
                lemma_recorded_once(v, batches, now, ids, j, k);
            }
        }
    }
    if is_watched_by(v, entries, e) {
        lemma_batches_name(entries, v.episodes[e].show_id, v.episodes[e].id);
        let x = lemma_marked_is_recorded(v, batches, now, ids, e);
        assert(rows[x].episode_id == v.episodes[e].id);
    }
}

// ── the order of the shows ──────────────────────────────────────────────

spec fn is_sorted(batches: Seq<replica::ShowBatchView>) -> bool {
    forall|i: int, j: int|
        #![trigger batches[i], batches[j]]
        0 <= i < j < batches.len() ==> text::text_before(batches[i].show_id, batches[j].show_id)
}

/// What is batched for a show.
spec fn batched_for(batches: Seq<replica::ShowBatchView>, show_id: Seq<char>) -> Seq<Seq<char>>
    decreases batches.len(),
{
    if batches.len() == 0 {
        Seq::empty()
    } else if batches.last().show_id == show_id {
        batches.last().episode_ids
    } else {
        batched_for(batches.drop_last(), show_id)
    }
}

proof fn lemma_batched_for_none(batches: Seq<replica::ShowBatchView>, show_id: Seq<char>)
    requires
        forall|i: int| 0 <= i < batches.len() ==> (#[trigger] batches[i]).show_id != show_id,
    ensures
        batched_for(batches, show_id) == Seq::<Seq<char>>::empty(),
    decreases batches.len(),
{
    if batches.len() > 0 {
        let front = batches.drop_last();
        assert(batches[batches.len() - 1].show_id != show_id);
        assert forall|i: int| 0 <= i < front.len() implies (#[trigger] front[i]).show_id
            != show_id by {
            assert(batches[i].show_id != show_id);
        }
        lemma_batched_for_none(front, show_id);
    }
}

proof fn lemma_batched_sorted(
    batches: Seq<replica::ShowBatchView>,
    s: Seq<char>,
    e: Seq<char>,
    other: Seq<char>,
    k: int,
)
    requires
        is_sorted(batches),
    ensures
        ({
            let all = replica::batched(batches, s, e);
            &&& is_sorted(all)
            &&& 0 <= k < all.len() ==> all[k].show_id == s || exists|i: int|
                0 <= i < batches.len() && (#[trigger] batches[i]).show_id == all[k].show_id
            &&& batched_for(all, s) == batched_for(batches, s).push(e)
            &&& other != s ==> batched_for(all, other) == batched_for(batches, other)
            &&& all.len() > 0
        }),
    decreases batches.len(),
{
    let all = replica::batched(batches, s, e);
    let one = replica::ShowBatchView { show_id: s, episode_ids: seq![e] };
    if batches.len() == 0 {
        assert(all =~= seq![one]);
        assert(all.drop_last() =~= Seq::empty());
        assert(batched_for(all, s) =~= Seq::<Seq<char>>::empty().push(e));
        assert(batched_for(all.drop_last(), other) == Seq::<Seq<char>>::empty());
    } else {
        let front = batches.drop_last();
        let last = batches.last();
        let n = batches.len() - 1;
        assert(batches[n] == last);
        assert(is_sorted(front)) by {
            assert forall|i: int, j: int|
                #![trigger front[i], front[j]]
                0 <= i < j < front.len() implies text::text_before(
                front[i].show_id,
                front[j].show_id,
            ) by {
                assert(text::text_before(batches[i].show_id, batches[j].show_id));
            }
        }
        if last.show_id == s {
            let grown = replica::ShowBatchView { show_id: s, episode_ids: last.episode_ids.push(e) };
            assert(all == front.push(grown));
            assert(all.drop_last() =~= front);
            assert forall|i: int, j: int|
                #![trigger all[i], all[j]]
                0 <= i < j < all.len() implies text::text_before(all[i].show_id, all[j].show_id) by {
                assert(text::text_before(batches[i].show_id, batches[j].show_id));
            }
            if 0 <= k < n {
                assert(batches[k].show_id == all[k].show_id);
            }
        } else if text::text_before(last.show_id, s) {
            assert(all == batches.push(one));
            assert(all.drop_last() =~= batches);
            assert forall|i: int, j: int|
                #![trigger all[i], all[j]]
                0 <= i < j < all.len() implies text::text_before(all[i].show_id, all[j].show_id) by {
                if j < batches.len() {
                    assert(text::text_before(batches[i].show_id, batches[j].show_id));
                } else if i < n {
                    assert(text::text_before(batches[i].show_id, batches[n].show_id));
                    text::lemma_text_before_transitive(batches[i].show_id, last.show_id, s);
                }
            }
            assert forall|i: int| 0 <= i < batches.len() implies (#[trigger] batches[i]).show_id
                != s by {
                text::lemma_text_order(s, s);
                if i < n {
                    assert(text::text_before(batches[i].show_id, batches[n].show_id));
                    text::lemma_text_before_transitive(batches[i].show_id, last.show_id, s);
                }
            }
            lemma_batched_for_none(batches, s);
            assert(batched_for(all, s) =~= batched_for(batches, s).push(e));
            if 0 <= k < batches.len() {
                assert(batches[k].show_id == all[k].show_id);
            }
        } else {
            let some = replica::batched(front, s, e);
            text::lemma_text_order(last.show_id, s);
            lemma_batched_sorted(front, s, e, other, 0);
            assert(all == some.push(last));
            assert(all.drop_last() =~= some);
            assert forall|i: int, j: int|
                #![trigger all[i], all[j]]
                0 <= i < j < all.len() implies text::text_before(all[i].show_id, all[j].show_id) by {
                if j < some.len() {
                    assert(text::text_before(some[i].show_id, some[j].show_id));
                } else {
                    lemma_batched_sorted(front, s, e, other, i);
                    if some[i].show_id != s {
                        let x = choose|x: int|
                            0 <= x < front.len() && (#[trigger] front[x]).show_id
                                == some[i].show_id;
                        assert(text::text_before(batches[x].show_id, batches[n].show_id));
                    }
                }
            }
            if 0 <= k < some.len() {
                lemma_batched_sorted(front, s, e, other, k);
                if some[k].show_id != s {
                    let x = choose|x: int|
                        0 <= x < front.len() && (#[trigger] front[x]).show_id == some[k].show_id;
                    assert(batches[x].show_id == all[k].show_id);
                }
            } else if 0 <= k < all.len() {
                assert(batches[n].show_id == all[k].show_id);
            }
        }
    }
}

proof fn lemma_batches_sorted(entries: Seq<(Seq<char>, Seq<char>)>, show_id: Seq<char>)
    ensures
        is_sorted(replica::batches_of(entries)),
        batched_for(replica::batches_of(entries), show_id) == entries.filter(
            |p: (Seq<char>, Seq<char>)| p.0 == show_id,
        ).map_values(|p: (Seq<char>, Seq<char>)| p.1),
    decreases entries.len(),
{
    reveal(Seq::filter);
    let own = |p: (Seq<char>, Seq<char>)| p.0 == show_id;
    let id = |p: (Seq<char>, Seq<char>)| p.1;
    if entries.len() > 0 {
        let front = entries.drop_last();
        let last = entries.last();
        lemma_batches_sorted(front, show_id);
        lemma_batched_sorted(replica::batches_of(front), last.0, last.1, show_id, 0);
        if last.0 == show_id {
            assert(entries.filter(own).map_values(id) =~= front.filter(own).map_values(id).push(
                last.1,
            ));
        }
    } else {
        assert(entries.filter(own).map_values(id) =~= Seq::empty());
    }
}

proof fn lemma_batched_for_at(batches: Seq<replica::ShowBatchView>, i: int)
    requires
        is_sorted(batches),
        0 <= i < batches.len(),
    ensures
        batched_for(batches, batches[i].show_id) == batches[i].episode_ids,
    decreases batches.len(),
{
    let n = batches.len() - 1;
    if i < n {
        assert(text::text_before(batches[i].show_id, batches[n].show_id));
        text::lemma_text_order(batches[i].show_id, batches[i].show_id);
        let front = batches.drop_last();
        assert(is_sorted(front)) by {
            assert forall|a: int, b: int|
                #![trigger front[a], front[b]]
                0 <= a < b < front.len() implies text::text_before(
                front[a].show_id,
                front[b].show_id,
            ) by {
                assert(text::text_before(batches[a].show_id, batches[b].show_id));
            }
        }
        assert(front[i] == batches[i]);
        lemma_batched_for_at(front, i);
    }
}

/// An advance goes by show, in the order of the show ids, byte by byte, each show
/// once; of each it takes the episodes that are named for it, in their order.
pub proof fn law_advance_goes_by_show(entries: Seq<(Seq<char>, Seq<char>)>, i: int, j: int)
    ensures
        ({
            let batches = replica::batches_of(entries);
            &&& 0 <= i < j < batches.len() ==> batches[i].show_id != batches[j].show_id
                && outcomes::bytes_not_behind(
                encode_utf8(batches[i].show_id),
                encode_utf8(batches[j].show_id),
            )
            &&& 0 <= i < batches.len() ==> batches[i].episode_ids == entries.filter(
                |p: (Seq<char>, Seq<char>)| p.0 == batches[i].show_id,
            ).map_values(|p: (Seq<char>, Seq<char>)| p.1)
        }),
{
    let batches = replica::batches_of(entries);
    lemma_batches_sorted(entries, Seq::empty());
    if 0 <= i < batches.len() {
        lemma_batches_sorted(entries, batches[i].show_id);
        lemma_batched_for_at(batches, i);
        if i < j < batches.len() {
            assert(text::text_before(batches[i].show_id, batches[j].show_id));
            text::lemma_text_order(batches[i].show_id, batches[j].show_id);
            outcomes::lemma_bytes_not_behind(
                encode_utf8(batches[i].show_id),
                encode_utf8(batches[j].show_id),
            );
        }
    }
}

proof fn lemma_drained_batch(
    v: replica::LibraryView,
    batches: Seq<replica::ShowBatchView>,
    now: Seq<char>,
    ids: Seq<Seq<char>>,
    i: int,
) -> (b: int)
    requires
        0 <= i < replica::batches_drained(v, batches, now, ids).len(),
    ensures
        0 <= b < batches.len(),
        batches[b].show_id == replica::batches_drained(v, batches, now, ids)[i],
    decreases batches.len(),
{
    let front = batches.drop_last();
    if i < replica::batches_drained(v, front, now, ids).len() {
        let b = lemma_drained_batch(v, front, now, ids, i);
        assert(front[b] == batches[b]);
        b
    } else {
        batches.len() - 1
    }
}

proof fn lemma_drained_sorted(
    v: replica::LibraryView,
    batches: Seq<replica::ShowBatchView>,
    now: Seq<char>,
    ids: Seq<Seq<char>>,
    i: int,
    j: int,
)
    requires
        is_sorted(batches),
        0 <= i < j < replica::batches_drained(v, batches, now, ids).len(),
    ensures
        text::text_before(
            replica::batches_drained(v, batches, now, ids)[i],
            replica::batches_drained(v, batches, now, ids)[j],
        ),
    decreases batches.len(),
{
    let front = batches.drop_last();
    let n = batches.len() - 1;
    assert(is_sorted(front)) by {
        assert forall|a: int, b: int|
            #![trigger front[a], front[b]]
            0 <= a < b < front.len() implies text::text_before(
            front[a].show_id,
            front[b].show_id,
        ) by {
            assert(text::text_before(batches[a].show_id, batches[b].show_id));
        }
    }
    if j < replica::batches_drained(v, front, now, ids).len() {
        lemma_drained_sorted(v, front, now, ids, i, j);
    } else {
        let b = lemma_drained_batch(v, front, now, ids, i);
        assert(front[b] == batches[b]);
        assert(text::text_before(batches[b].show_id, batches[n].show_id));
    }
}

/// The shows that an advance tells of as finished stand in the order of their ids,
/// byte by byte.
pub proof fn law_finished_shows_stand_in_order(
    v: replica::LibraryView,
    entries: Seq<(Seq<char>, Seq<char>)>,
    now: Seq<char>,
    ids: Seq<Seq<char>>,
    i: int,
    j: int,
)
    requires
        0 <= i < j < replica::batches_drained(v, replica::batches_of(entries), now, ids).len(),
    ensures
        ({
            let told = replica::batches_drained(v, replica::batches_of(entries), now, ids);
            outcomes::bytes_not_behind(encode_utf8(told[i]), encode_utf8(told[j]))
        }),
{
    let batches = replica::batches_of(entries);
    let told = replica::batches_drained(v, batches, now, ids);
    lemma_batches_sorted(entries, Seq::empty());
    lemma_drained_sorted(v, batches, now, ids, i, j);
    text::lemma_text_order(told[i], told[j]);
    outcomes::lemma_bytes_not_behind(encode_utf8(told[i]), encode_utf8(told[j]));
}

} // verus!
