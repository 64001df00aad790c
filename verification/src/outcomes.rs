//! What the operations come to, said of the shows, the episodes and the rows
//! themselves: which episode a round takes of a show and where it stands, what
//! watching and deferring leave behind, and where a stored round goes on.

use vstd::prelude::*;
use vstd::utf8::*;

use crate::engine;
use crate::engine::Episode;
use crate::library;
use crate::ordering;
use crate::ordering::Ordered;
use crate::queue;
use crate::replica;
use crate::rounds;
use crate::runner;
use crate::runner::RunnerView;
use crate::sorting;
use crate::tables;
use crate::tables::{EpisodeRow, Keyed, QueueRow, ShowRow};
use crate::text;

verus! {

// ── the order of a round ────────────────────────────────────────────────

/// The first string does not come behind the second, byte by byte: at the first
/// difference it has the lower byte, and it does not go on where the other ends.
pub open spec fn bytes_not_behind(a: Seq<u8>, b: Seq<u8>) -> bool {
    &&& forall|k: int|
        0 <= k < a.len() && k < b.len() && #[trigger] a.take(k) == b.take(k) ==> a[k] <= b[k]
    &&& b.len() <= a.len() && a.take(b.len() as int) == b ==> a == b
}

pub(crate) proof fn lemma_bytes_not_behind(a: Seq<u8>, b: Seq<u8>)
    requires
        !text::bytes_before(b, a),
    ensures
        bytes_not_behind(a, b),
    decreases a.len(),
{
    if a.len() == 0 {
        assert(b.len() <= a.len() ==> a =~= b);
    } else if b.len() > 0 {
        let x = a.drop_first();
        let y = b.drop_first();
        if a[0] == b[0] {
            lemma_bytes_not_behind(x, y);
        }
        assert forall|k: int|
            0 <= k < a.len() && k < b.len() && #[trigger] a.take(k) == b.take(k) implies a[k]
            <= b[k] by {
            if k > 0 {
                assert(a.take(k)[0] == b.take(k)[0]);
                assert(x.take(k - 1) =~= a.take(k).drop_first());
                assert(y.take(k - 1) =~= b.take(k).drop_first());
                assert(x[k - 1] <= y[k - 1]);
            }
        }
        if b.len() <= a.len() && a.take(b.len() as int) == b {
            assert(a.take(b.len() as int)[0] == b[0]);
            assert(x.take(y.len() as int) =~= a.take(b.len() as int).drop_first());
            assert(x == y);
            assert(a =~= seq![a[0]] + x);
            assert(b =~= seq![b[0]] + y);
        }
    }
}

proof fn lemma_level(x: ordering::OrderedView, y: ordering::OrderedView)
    requires
        <Ordered as sorting::Sortable>::leq(x, y),
    ensures
        x.order_value <= y.order_value,
        x.order_value == y.order_value ==> bytes_not_behind(
            encode_utf8(x.episode_id),
            encode_utf8(y.episode_id),
        ),
{
    if x.order_value == y.order_value {
        lemma_bytes_not_behind(encode_utf8(x.episode_id), encode_utf8(y.episode_id));
    }
}

/// A round plays in ascending order of its keys; where two keys are equal, in the
/// order of the episode ids, byte by byte.
pub proof fn law_round_ascends(
    candidates: Seq<ordering::CandidateView>,
    shows: Seq<engine::ShowView>,
)
    ensures
        forall|i: int, j: int|
            #![trigger ordering::round_of(candidates)[i], ordering::round_of(candidates)[j]]
            0 <= i < j < ordering::round_of(candidates).len() ==> {
                let x = ordering::round_of(candidates)[i];
                let y = ordering::round_of(candidates)[j];
                &&& x.order_value <= y.order_value
                &&& x.order_value == y.order_value ==> bytes_not_behind(
                    encode_utf8(x.episode_id),
                    encode_utf8(y.episode_id),
                )
            },
        forall|i: int, j: int|
            #![trigger engine::round_of_shows(shows)[i], engine::round_of_shows(shows)[j]]
            0 <= i < j < engine::round_of_shows(shows).len() ==> {
                let x = engine::round_of_shows(shows)[i];
                let y = engine::round_of_shows(shows)[j];
                &&& x.order_value <= y.order_value
                &&& x.order_value == y.order_value ==> bytes_not_behind(
                    encode_utf8(x.episode_id),
                    encode_utf8(y.episode_id),
                )
            },
{
    sorting::lemma_in_order::<Ordered>(ordering::all_resolved(candidates));
    sorting::lemma_in_order::<Ordered>(ordering::all_resolved(engine::offers(shows)));
    let r = ordering::round_of(candidates);
    assert forall|i: int, j: int| #![trigger r[i], r[j]] 0 <= i < j < r.len() implies {
        &&& r[i].order_value <= r[j].order_value
        &&& r[i].order_value == r[j].order_value ==> bytes_not_behind(
            encode_utf8(r[i].episode_id),
            encode_utf8(r[j].episode_id),
        )
    } by {
        lemma_level(r[i], r[j]);
    }
    let s = engine::round_of_shows(shows);
    assert forall|i: int, j: int| #![trigger s[i], s[j]] 0 <= i < j < s.len() implies {
        &&& s[i].order_value <= s[j].order_value
        &&& s[i].order_value == s[j].order_value ==> bytes_not_behind(
            encode_utf8(s[i].episode_id),
            encode_utf8(s[j].episode_id),
        )
    } by {
        lemma_level(s[i], s[j]);
    }
}

/// A key is the number that the first two bytes of the path's digest spell, the
/// first of them the higher; so the key is below `0x10000`.
pub proof fn law_key_is_the_head_of_the_digest(path: Seq<char>)
    ensures
        ({
            let digest = ordering::sha256(encode_utf8(path));
            &&& ordering::order_value_of(path) == 256 * (digest[0] as int) + digest[1] as int
            &&& ordering::order_value_of(path) < 0x10000
        }),
{
}

/// A show's folder and an episode's path are joined by one backslash, whatever
/// separators stand at the seam.
pub proof fn law_paths_are_joined_by_one_backslash(root: Seq<char>, rel: Seq<char>, c: char)
    ensures
        !(root.len() > 0 && (root.last() == '\\' || root.last() == '/')) && !(rel.len() > 0 && (
        rel[0] == '\\' || rel[0] == '/')) ==> ordering::joined(root, rel) == root + seq!['\\']
            + rel,
        c == '\\' || c == '/' ==> ordering::joined(root.push(c), rel) == ordering::joined(
            root,
            rel,
        ),
        c == '\\' || c == '/' ==> ordering::joined(root, seq![c] + rel) == ordering::joined(
            root,
            rel,
        ),
{
    assert(root.push(c).drop_last() =~= root);
    assert((seq![c] + rel).drop_first() =~= rel);
}

/// Whether an episode is the lowest unwatched one of a show, and of several at the
/// lowest position the first.
pub open spec fn is_lowest_unwatched(eps: Seq<engine::EpisodeView>, p: int) -> bool {
    &&& 0 <= p < eps.len()
    &&& eps[p].watched_at is None
    &&& forall|q: int|
        0 <= q < eps.len() && (#[trigger] eps[q]).watched_at is None ==> eps[p].position
            <= eps[q].position && (eps[p].position == eps[q].position ==> p <= q)
}

/// Every entry of a round is the lowest unwatched episode of a show that is not
/// retired, with the path and the key of that episode.
pub proof fn law_round_entry_is_the_lowest_unwatched(shows: Seq<engine::ShowView>, k: int)
    requires
        0 <= k < engine::round_of_shows(shows).len(),
    ensures
        exists|i: int, p: int|
            #![trigger shows[i].episodes[p]]
            {
                let o = engine::round_of_shows(shows)[k];
                &&& 0 <= i < shows.len()
                &&& shows[i].removed_at is None
                &&& is_lowest_unwatched(shows[i].episodes, p)
                &&& o.show_id == shows[i].id
                &&& o.episode_id == shows[i].episodes[p].id
                &&& o.absolute_path == ordering::joined(
                    shows[i].root_path,
                    shows[i].episodes[p].relative_path,
                )
                &&& o.order_value == ordering::order_value_of(o.absolute_path)
            },
{
    let o = engine::round_of_shows(shows)[k];
    assert(engine::round_of_shows(shows).contains(o));
    engine::lemma_round_members(shows, o);
    let i = choose|i: int|
        0 <= i < shows.len() && engine::offer(#[trigger] shows[i]) is Some && ordering::resolved(
            engine::offer(shows[i])->0,
        ) == o;
    let eps = shows[i].episodes;
    engine::lemma_pick_exists(eps);
    let p = choose|p: int| engine::is_pick(eps, p) && engine::pick(eps) == Some(eps[p]);
    assert(is_lowest_unwatched(eps, p));
    assert(shows[i].episodes[p].id == o.episode_id);
}

/// Every show that is not retired and has an unwatched episode is in the round,
/// with the lowest of them.
pub proof fn law_active_show_is_in_the_round(shows: Seq<engine::ShowView>, i: int, q: int)
    requires
        0 <= i < shows.len(),
        shows[i].removed_at is None,
        0 <= q < shows[i].episodes.len(),
        shows[i].episodes[q].watched_at is None,
    ensures
        exists|k: int, p: int|
            #![trigger engine::round_of_shows(shows)[k], shows[i].episodes[p]]
            0 <= k < engine::round_of_shows(shows).len() && is_lowest_unwatched(
                shows[i].episodes,
                p,
            ) && engine::round_of_shows(shows)[k].show_id == shows[i].id && engine::round_of_shows(
                shows,
            )[k].episode_id == shows[i].episodes[p].id,
{
    let eps = shows[i].episodes;
    assert(!engine::all_watched_spec(eps)) by {
        assert(eps[q].watched_at is None);
    }
    engine::law_every_active_show_is_in_the_round(shows, i);
    engine::lemma_pick_exists(eps);
    let p = choose|p: int| engine::is_pick(eps, p) && engine::pick(eps) == Some(eps[p]);
    assert(is_lowest_unwatched(eps, p));
    let r = engine::round_of_shows(shows);
    let k = choose|k: int|
        0 <= k < r.len() && (#[trigger] r[k]).show_id == shows[i].id && Some(r[k].episode_id)
            == match engine::pick(eps) {
            Some(e) => Some(e.id),
            None => None,
        };
    assert(r[k].episode_id == shows[i].episodes[p].id);
}

// ── watching ────────────────────────────────────────────────────────────

/// Whether an advance newly watches an episode: it was unwatched, it is named, and
/// it is the first with its id.
pub open spec fn is_newly_watched(
    eps: Seq<engine::EpisodeView>,
    ids: Seq<Seq<char>>,
    i: int,
) -> bool {
    &&& 0 <= i < eps.len()
    &&& eps[i].watched_at is None
    &&& ids.contains(eps[i].id)
    &&& forall|j: int| 0 <= j < i ==> (#[trigger] eps[j]).id != eps[i].id
}

proof fn lemma_newly_watched(eps: Seq<engine::EpisodeView>, ids: Seq<Seq<char>>, i: int)
    ensures
        is_newly_watched(eps, ids, i) == engine::is_marked(eps, ids, i),
{
    if 0 <= i < eps.len() {
        engine::lemma_first_named(eps, eps[i].id);
        if forall|j: int| 0 <= j < i ==> (#[trigger] eps[j]).id != eps[i].id {
            engine::lemma_first_named_is(eps, eps[i].id, i);
        }
    }
}

/// An advance watches the named episodes that were unwatched and changes nothing
/// else of any episode. It retires the show if and only if it newly watched an
/// episode and afterwards every episode is watched: while one is unwatched, the
/// show stays as active as it was.
pub proof fn law_advance_outcome(s: engine::ShowView, ids: Seq<Seq<char>>, now: Seq<char>)
    ensures
        ({
            let t = engine::advanced_show(s, ids, now);
            let retires = (exists|i: int| #[trigger] is_newly_watched(s.episodes, ids, i)) && (
            forall|i: int| 0 <= i < t.episodes.len() ==> (#[trigger] t.episodes[i]).watched_at
                is Some);
            &&& t.episodes.len() == s.episodes.len()
            &&& forall|i: int|
                0 <= i < s.episodes.len() ==> #[trigger] t.episodes[i] == if is_newly_watched(
                    s.episodes,
                    ids,
                    i,
                ) {
                    engine::EpisodeView { watched_at: Some(now), ..s.episodes[i] }
                } else {
                    s.episodes[i]
                }
            &&& engine::drains(s, ids, now) == retires
            &&& t == (engine::ShowView {
                episodes: t.episodes,
                removed_at: if retires {
                    Some(now)
                } else {
                    s.removed_at
                },
                ..s
            })
        }),
{
    let eps = s.episodes;
    let t = engine::advanced_show(s, ids, now);
    let rows = engine::plays(s.id, eps, ids, now);
    engine::law_advance_marks_exactly_the_named(eps, ids, now);
    engine::law_one_play_per_marked_episode(s.id, eps, ids, now);
    assert forall|i: int| is_newly_watched(eps, ids, i) == engine::is_marked(eps, ids, i) by {
        lemma_newly_watched(eps, ids, i);
    }
    if rows.len() > 0 {
        assert(rows.contains(rows[0]));
        let i = choose|i: int|
            #![trigger engine::is_marked(eps, ids, i)]
            engine::is_marked(eps, ids, i) && rows[0] == (engine::HistoryRowView {
                show_id: s.id,
                episode_id: eps[i].id,
                relative_path: eps[i].relative_path,
                played_at: now,
            });
        assert(is_newly_watched(eps, ids, i));
    }
    if exists|i: int| #[trigger] is_newly_watched(eps, ids, i) {
        let i = choose|i: int| #[trigger] is_newly_watched(eps, ids, i);
        assert(engine::is_marked(eps, ids, i));
        assert(rows.contains(
            engine::HistoryRowView {
                show_id: s.id,
                episode_id: eps[i].id,
                relative_path: eps[i].relative_path,
                played_at: now,
            },
        ));
        assert(rows.len() > 0);
    }
}

/// Whether a row of the watch history is of an episode of a show at a time.
pub open spec fn is_play_of(
    row: engine::HistoryRowView,
    show_id: Seq<char>,
    e: engine::EpisodeView,
    now: Seq<char>,
) -> bool {
    &&& row.show_id == show_id
    &&& row.episode_id == e.id
    &&& row.relative_path == e.relative_path
    &&& row.played_at == now
}

proof fn lemma_watch_has_a_play(
    show_id: Seq<char>,
    eps: Seq<engine::EpisodeView>,
    ids: Seq<Seq<char>>,
    now: Seq<char>,
    i: int,
)
    requires
        is_newly_watched(eps, ids, i),
    ensures
        exists|k: int|
            0 <= k < engine::plays(show_id, eps, ids, now).len() && is_play_of(
                #[trigger] engine::plays(show_id, eps, ids, now)[k],
                show_id,
                eps[i],
                now,
            ),
{
    let rows = engine::plays(show_id, eps, ids, now);
    engine::law_one_play_per_marked_episode(show_id, eps, ids, now);
    lemma_newly_watched(eps, ids, i);
    let row = engine::HistoryRowView {
        show_id,
        episode_id: eps[i].id,
        relative_path: eps[i].relative_path,
        played_at: now,
    };
    assert(rows.contains(row));
    let k = choose|k: int| 0 <= k < rows.len() && rows[k] == row;
    assert(is_play_of(rows[k], show_id, eps[i], now));
}

proof fn lemma_play_is_of_a_watch(
    show_id: Seq<char>,
    eps: Seq<engine::EpisodeView>,
    ids: Seq<Seq<char>>,
    now: Seq<char>,
    k: int,
)
    requires
        0 <= k < engine::plays(show_id, eps, ids, now).len(),
    ensures
        exists|i: int|
            #![trigger is_newly_watched(eps, ids, i)]
            is_newly_watched(eps, ids, i) && is_play_of(
                engine::plays(show_id, eps, ids, now)[k],
                show_id,
                eps[i],
                now,
            ),
{
    let rows = engine::plays(show_id, eps, ids, now);
    engine::law_one_play_per_marked_episode(show_id, eps, ids, now);
    assert(rows.contains(rows[k]));
    let i = choose|i: int|
        #![trigger engine::is_marked(eps, ids, i)]
        engine::is_marked(eps, ids, i) && rows[k] == (engine::HistoryRowView {
            show_id,
            episode_id: eps[i].id,
            relative_path: eps[i].relative_path,
            played_at: now,
        });
    lemma_newly_watched(eps, ids, i);
    assert(is_newly_watched(eps, ids, i) && is_play_of(rows[k], show_id, eps[i], now));
}

proof fn lemma_plays_differ(
    show_id: Seq<char>,
    eps: Seq<engine::EpisodeView>,
    ids: Seq<Seq<char>>,
    now: Seq<char>,
    j: int,
    k: int,
)
    requires
        0 <= j < k < engine::plays(show_id, eps, ids, now).len(),
    ensures
        engine::plays(show_id, eps, ids, now)[j].episode_id != engine::plays(
            show_id,
            eps,
            ids,
            now,
        )[k].episode_id,
{
    engine::law_one_play_per_marked_episode(show_id, eps, ids, now);
}

/// An advance records one play for each episode that it newly watches, and no
/// other: of that show and episode, with its path, at the time.
pub proof fn law_advance_records_each_watch_once(
    show_id: Seq<char>,
    eps: Seq<engine::EpisodeView>,
    ids: Seq<Seq<char>>,
    now: Seq<char>,
    i: int,
    j: int,
    k: int,
)
    ensures
        ({
            let rows = engine::plays(show_id, eps, ids, now);
            &&& is_newly_watched(eps, ids, i) ==> exists|m: int|
                0 <= m < rows.len() && is_play_of(#[trigger] rows[m], show_id, eps[i], now)
            &&& 0 <= k < rows.len() ==> exists|m: int|
                #![trigger is_newly_watched(eps, ids, m)]
                is_newly_watched(eps, ids, m) && is_play_of(rows[k], show_id, eps[m], now)
            &&& 0 <= j < k < rows.len() ==> rows[j].episode_id != rows[k].episode_id
        }),
{
    let rows = engine::plays(show_id, eps, ids, now);
    if is_newly_watched(eps, ids, i) {
        lemma_watch_has_a_play(show_id, eps, ids, now, i);
    }
    if 0 <= k < rows.len() {
        lemma_play_is_of_a_watch(show_id, eps, ids, now, k);
        if 0 <= j < k {
            lemma_plays_differ(show_id, eps, ids, now, j, k);
        }
    }
}

// ── the stored round ────────────────────────────────────────────────────

/// Whether a row of the stored round can be played: it is of one of the playlists,
/// and its show and its episode are in the library.
pub open spec fn is_playable(
    v: replica::LibraryView,
    q: tables::QueueRowView,
    playlists: Seq<Seq<char>>,
) -> bool {
    &&& playlists.contains(q.playlist)
    &&& exists|s: int| 0 <= s < v.shows.len() && (#[trigger] v.shows[s]).id == q.show_id
    &&& exists|e: int|
        0 <= e < v.episodes.len() && (#[trigger] v.episodes[e]).id == q.episode_id
            && v.episodes[e].show_id == q.show_id
}

/// Whether a row is still to be played: it is waiting, or it was playing when the
/// player was closed.
pub open spec fn is_left(q: tables::QueueRowView) -> bool {
    q.state == "pending"@ || q.state == "playing"@
}

pub proof fn lemma_episodes_in_has(
    rows: Seq<tables::EpisodeRowView>,
    show_id: Seq<char>,
    i: int,
)
    requires
        0 <= i < rows.len(),
        rows[i].show_id == show_id,
    ensures
        replica::episodes_in(rows, show_id).contains(replica::to_episode(rows[i])),
    decreases rows.len(),
{
    let front = rows.drop_last();
    let all = replica::episodes_in(rows, show_id);
    if i < front.len() {
        lemma_episodes_in_has(front, show_id, i);
        let some = replica::episodes_in(front, show_id);
        let k = choose|k: int| 0 <= k < some.len() && some[k] == replica::to_episode(front[i]);
        assert(all[k] == some[k]);
    } else {
        assert(all[all.len() - 1] == replica::to_episode(rows[i]));
    }
}

/// A row gives an entry if and only if it can be played, and the entry is of its
/// show and its episode.
proof fn lemma_stored_entry(
    v: replica::LibraryView,
    q: tables::QueueRowView,
    playlists: Seq<Seq<char>>,
)
    ensures
        rounds::stored_entry(v, q, playlists) is Some == is_playable(v, q, playlists),
        rounds::stored_entry(v, q, playlists) matches Some(e) ==> e.episode_id == q.episode_id
            && e.show_id == q.show_id && e.order_value == q.play_order as u32,
{
    tables::lemma_place::<ShowRow>(v.shows, q.show_id);
    match replica::show_of(v, q.show_id) {
        Some(s) => {
            let i = tables::place::<ShowRow>(v.shows, q.show_id)->0;
            assert(ShowRow::key(v.shows[i]) == q.show_id);
            let raw = replica::episodes_in(v.episodes, q.show_id);
            assert(s.episodes == sorting::in_order::<Episode>(raw));
            sorting::lemma_in_order::<Episode>(raw);
            engine::lemma_first_named(s.episodes, q.episode_id);
            if is_playable(v, q, playlists) {
                let e = choose|e: int|
                    0 <= e < v.episodes.len() && (#[trigger] v.episodes[e]).id == q.episode_id
                        && v.episodes[e].show_id == q.show_id;
                lemma_episodes_in_has(v.episodes, q.show_id, e);
                assert(s.episodes.contains(replica::to_episode(v.episodes[e])));
                let k = choose|k: int|
                    0 <= k < s.episodes.len() && s.episodes[k] == replica::to_episode(
                        v.episodes[e],
                    );
                assert(s.episodes[k].id == q.episode_id);
            }
            match engine::first_named(s.episodes, q.episode_id) {
                Some(k) => {
                    assert(s.episodes.contains(s.episodes[k]));
                    crate::laws::lemma_episodes_in_rows(v.episodes, q.show_id, s.episodes[k]);
                    let e = choose|e: int|
                        0 <= e < v.episodes.len() && (#[trigger] v.episodes[e]).show_id
                            == q.show_id && replica::to_episode(v.episodes[e]) == s.episodes[k];
                    assert(v.episodes[e].id == q.episode_id);
                },
                None => {},
            }
        },
        None => {
            if is_playable(v, q, playlists) {
                let s = choose|s: int|
                    0 <= s < v.shows.len() && (#[trigger] v.shows[s]).id == q.show_id;
                assert(ShowRow::key(v.shows[s]) == q.show_id);
            }
        },
    }
}

/// How many entries the rows before a place give.
pub(crate) open spec fn entries_before(
    v: replica::LibraryView,
    rows: Seq<tables::QueueRowView>,
    playlists: Seq<Seq<char>>,
    m: int,
) -> nat {
    rounds::stored_entries(v, rows.take(m), playlists).len()
}

/// Further down there are no fewer entries, and more where the row gave one.
proof fn lemma_entries_grow(
    v: replica::LibraryView,
    rows: Seq<tables::QueueRowView>,
    playlists: Seq<Seq<char>>,
    m: int,
    n: int,
)
    requires
        0 <= m < n <= rows.len(),
    ensures
        entries_before(v, rows, playlists, m) <= entries_before(v, rows, playlists, n),
        rounds::stored_entry(v, rows[m], playlists) is Some ==> entries_before(
            v,
            rows,
            playlists,
            m,
        ) < entries_before(v, rows, playlists, n),
    decreases n - m,
{
    assert(rows.take(n).drop_last() =~= rows.take(n - 1));
    assert(rows.take(n).last() == rows[n - 1]);
    if m < n - 1 {
        lemma_entries_grow(v, rows, playlists, m, n - 1);
    }
}

/// The entry that a row gives stands behind those of the rows before it.
proof fn lemma_entry_of_row(
    v: replica::LibraryView,
    rows: Seq<tables::QueueRowView>,
    playlists: Seq<Seq<char>>,
    m: int,
)
    requires
        0 <= m < rows.len(),
        rounds::stored_entry(v, rows[m], playlists) is Some,
    ensures
        entries_before(v, rows, playlists, m) < rounds::stored_entries(v, rows, playlists).len(),
        rounds::stored_entries(v, rows, playlists)[entries_before(v, rows, playlists, m) as int]
            == rounds::stored_entry(v, rows[m], playlists)->0,
    decreases rows.len(),
{
    let front = rows.drop_last();
    if m < front.len() {
        assert(front[m] == rows[m]);
        assert(front.take(m) =~= rows.take(m));
        lemma_entry_of_row(v, front, playlists, m);
    } else {
        assert(rows.take(m) =~= front);
    }
}

/// Every entry is given by a row.
pub(crate) proof fn lemma_row_of_entry(
    v: replica::LibraryView,
    rows: Seq<tables::QueueRowView>,
    playlists: Seq<Seq<char>>,
    k: int,
) -> (m: int)
    requires
        0 <= k < rounds::stored_entries(v, rows, playlists).len(),
    ensures
        0 <= m < rows.len(),
        rounds::stored_entry(v, rows[m], playlists) == Some(
            rounds::stored_entries(v, rows, playlists)[k],
        ),
        entries_before(v, rows, playlists, m) == k,
    decreases rows.len(),
{
    let front = rows.drop_last();
    let some = rounds::stored_entries(v, front, playlists);
    let last = rows.len() - 1;
    assert(rows.take(last) =~= front);
    if k < some.len() {
        let m = lemma_row_of_entry(v, front, playlists, k);
        assert(front[m] == rows[m]);
        assert(front.take(m) =~= rows.take(m));
        m
    } else {
        last
    }
}

/// Where the stored round goes on: at the first row that can be played and is left.
proof fn lemma_goes_on_at(
    v: replica::LibraryView,
    rows: Seq<tables::QueueRowView>,
    playlists: Seq<Seq<char>>,
)
    ensures
        rounds::first_open(v, rows, playlists) matches Some(p) ==> exists|m: int|
            #![trigger entries_before(v, rows, playlists, m)]
            0 <= m < rows.len() && p == entries_before(v, rows, playlists, m) && is_playable(
                v,
                rows[m],
                playlists,
            ) && is_left(rows[m]) && forall|n: int|
                0 <= n < m ==> !(is_playable(v, #[trigger] rows[n], playlists) && is_left(rows[n])),
        rounds::first_open(v, rows, playlists) is None ==> forall|n: int|
            0 <= n < rows.len() ==> !(is_playable(v, #[trigger] rows[n], playlists) && is_left(
                rows[n],
            )),
    decreases rows.len(),
{
    if rows.len() > 0 {
        let front = rows.drop_last();
        let last = rows.len() - 1;
        lemma_goes_on_at(v, front, playlists);
        lemma_stored_entry(v, rows.last(), playlists);
        assert(rows[last] == rows.last());
        assert(rows.take(last) =~= front);
        match rounds::first_open(v, front, playlists) {
            Some(p) => {
                let m = choose|m: int|
                    #![trigger entries_before(v, front, playlists, m)]
                    0 <= m < front.len() && p == entries_before(v, front, playlists, m)
                        && is_playable(v, front[m], playlists) && is_left(front[m]) && forall|
                        n: int,
                    |
                        0 <= n < m ==> !(is_playable(v, #[trigger] front[n], playlists) && is_left(
                            front[n],
                        ));
                assert(front.take(m) =~= rows.take(m));
                assert(entries_before(v, rows, playlists, m) == p);
                assert(front[m] == rows[m]);
                assert forall|n: int| 0 <= n < m implies !(is_playable(
                    v,
                    #[trigger] rows[n],
                    playlists,
                ) && is_left(rows[n])) by {
                    assert(front[n] == rows[n]);
                }
            },
            None => {
                assert forall|n: int| 0 <= n < last implies !(is_playable(
                    v,
                    #[trigger] rows[n],
                    playlists,
                ) && is_left(rows[n])) by {
                    assert(front[n] == rows[n]);
                }
                if is_playable(v, rows[last], playlists) && is_left(rows[last]) {
                    assert(entries_before(v, rows, playlists, last) == rounds::first_open(
                        v,
                        rows,
                        playlists,
                    )->0);
                }
            },
        }
    }
}

proof fn lemma_queue_in_order(v: replica::LibraryView)
    requires
        v.well_formed(),
    ensures
        ({
            let rows = sorting::in_order::<QueueRow>(v.queue);
            &&& forall|q: tables::QueueRowView| #[trigger] rows.contains(q) <==> v.queue.contains(q)
            &&& forall|m: int, n: int|
                #![trigger rows[m], rows[n]]
                0 <= m < n < rows.len() ==> rows[m].play_order <= rows[n].play_order
                    && rows[m].episode_id != rows[n].episode_id
        }),
{
    broadcast use vstd::seq_lib::group_to_multiset_ensures;

    let raw = v.queue;
    let rows = sorting::in_order::<QueueRow>(raw);
    sorting::lemma_in_order::<QueueRow>(raw);
    assert(raw.no_duplicates()) by {
        assert forall|a: int, b: int| 0 <= a < raw.len() && 0 <= b < raw.len() && a
            != b implies raw[a] != raw[b] by {
            if a < b {
                assert(QueueRow::key(raw[a]) != QueueRow::key(raw[b]));
            } else {
                assert(QueueRow::key(raw[b]) != QueueRow::key(raw[a]));
            }
        }
    }
    raw.lemma_multiset_has_no_duplicates();
    assert forall|x: tables::QueueRowView| rows.to_multiset().contains(x) implies rows.to_multiset().count(
        x,
    ) == 1 by {
    }
    rows.lemma_multiset_has_no_duplicates_conv();
    assert forall|m: int, n: int|
        #![trigger rows[m], rows[n]]
        0 <= m < n < rows.len() implies rows[m].play_order <= rows[n].play_order
        && rows[m].episode_id != rows[n].episode_id by {
        assert(<QueueRow as sorting::Sortable>::leq(rows[m], rows[n]));
        assert(rows.contains(rows[m]) && rows.contains(rows[n]));
        let a = choose|a: int| 0 <= a < raw.len() && raw[a] == rows[m];
        let b = choose|b: int| 0 <= b < raw.len() && raw[b] == rows[n];
        assert(rows[m] != rows[n]);
        if a < b {
            assert(QueueRow::key(raw[a]) != QueueRow::key(raw[b]));
        } else {
            assert(QueueRow::key(raw[b]) != QueueRow::key(raw[a]));
        }
    }
}

/// Whether two rows of the stored round stand in the order in which they are
/// played.
pub open spec fn in_play_order(a: tables::QueueRowView, b: tables::QueueRowView) -> bool {
    a.play_order <= b.play_order
}

/// The stored round goes on where it was left. It is over if and only if no row of
/// the playlists is left to play. Otherwise it is all rows that can be played, in
/// the order in which they are played, and it goes on at the first that waits or
/// was playing: that row is left, and none before it is.
pub proof fn law_stored_round_goes_on_where_it_was_left(
    v: replica::LibraryView,
    playlists: Seq<Seq<char>>,
    q: tables::QueueRowView,
    p: tables::QueueRowView,
    k: int,
    l: int,
)
    requires
        v.well_formed(),
        v.queue.contains(q),
        v.queue.contains(p),
    ensures
        ({
            let (round, pos) = rounds::stored_round(v, playlists);
            &&& round.len() == 0 ==> !(is_playable(v, q, playlists) && is_left(q))
            &&& round.len() > 0 ==> {
                &&& pos < round.len()
                &&& is_playable(v, q, playlists) ==> exists|m: int|
                    0 <= m < round.len() && (#[trigger] round[m]).episode_id == q.episode_id
                        && round[m].show_id == q.show_id
                &&& 0 <= k < round.len() ==> exists|m: int|
                    0 <= m < v.queue.len() && (#[trigger] v.queue[m]).episode_id
                        == round[k].episode_id && v.queue[m].show_id == round[k].show_id
                        && is_playable(v, v.queue[m], playlists)
                &&& 0 <= k < l < round.len() && q.episode_id == round[k].episode_id && p.episode_id
                    == round[l].episode_id ==> in_play_order(q, p)
                &&& q.episode_id == round[pos as int].episode_id ==> is_left(q)
                &&& 0 <= k < pos && q.episode_id == round[k].episode_id ==> !is_left(q)
            }
        }),
{
    let (round, pos) = rounds::stored_round(v, playlists);
    let rows = sorting::in_order::<QueueRow>(v.queue);
    lemma_queue_in_order(v);
    lemma_goes_on_at(v, rows, playlists);
    assert(rows.contains(q) && rows.contains(p));
    let a = choose|a: int| 0 <= a < rows.len() && rows[a] == q;
    let b = choose|b: int| 0 <= b < rows.len() && rows[b] == p;
    lemma_stored_entry(v, q, playlists);
    if rounds::first_open(v, rows, playlists) is Some {
        assert(rounds::first_open(v, rows, playlists) == Some(pos));
        let m = choose|m: int|
            #![trigger entries_before(v, rows, playlists, m)]
            0 <= m < rows.len() && pos == entries_before(v, rows, playlists, m) && is_playable(
                v,
                rows[m],
                playlists,
            ) && is_left(rows[m]) && forall|n: int|
                0 <= n < m ==> !(is_playable(v, #[trigger] rows[n], playlists) && is_left(rows[n]));
        lemma_stored_entry(v, rows[m], playlists);
        lemma_entry_of_row(v, rows, playlists, m);
        if is_playable(v, q, playlists) {
            let at = entries_before(v, rows, playlists, a) as int;
            lemma_entry_of_row(v, rows, playlists, a);
            assert(round[at] == rounds::stored_entry(v, rows[a], playlists)->0);
        }
        if q.episode_id == round[pos as int].episode_id {
            assert(rows[m].episode_id == q.episode_id);
            if a < m {
                assert(rows[a].episode_id != rows[m].episode_id);
            } else if m < a {
                assert(rows[m].episode_id != rows[a].episode_id);
            }
        }
        if 0 <= k < round.len() {
            let x = lemma_row_of_entry(v, rows, playlists, k);
            lemma_stored_entry(v, rows[x], playlists);
            assert(rows.contains(rows[x]));
            let y = choose|y: int| 0 <= y < v.queue.len() && v.queue[y] == rows[x];
            assert(v.queue[y].episode_id == round[k].episode_id);
            if q.episode_id == round[k].episode_id {
                if a < x {
                    assert(rows[a].episode_id != rows[x].episode_id);
                } else if x < a {
                    assert(rows[x].episode_id != rows[a].episode_id);
                }
                assert(a == x);
                if k < pos {
                    if m < x {
                        lemma_entries_grow(v, rows, playlists, m, x);
                    }
                    assert(x < m);
                }
                if k < l < round.len() && p.episode_id == round[l].episode_id {
                    let z = lemma_row_of_entry(v, rows, playlists, l);
                    lemma_stored_entry(v, rows[z], playlists);
                    if b < z {
                        assert(rows[b].episode_id != rows[z].episode_id);
                    } else if z < b {
                        assert(rows[z].episode_id != rows[b].episode_id);
                    }
                    assert(b == z);
                    if z < x {
                        lemma_entries_grow(v, rows, playlists, z, x);
                    }
                    if x < z {
                        assert(rows[x].play_order <= rows[z].play_order);
                    }
                }
            }
        }
    }
}

spec fn restated(
    q: tables::QueueRowView,
    episode_id: Seq<char>,
    state: Seq<char>,
    playlist: Seq<char>,
    now: Seq<char>,
) -> tables::QueueRowView {
    let set = if q.episode_id == episode_id {
        tables::QueueRowView { state, updated_at: now, dirty: 0, ..q }
    } else {
        q
    };
    if set.playlist == playlist {
        tables::QueueRowView { updated_at: now, dirty: 0, ..set }
    } else {
        set
    }
}

proof fn lemma_restated_entries(
    v: replica::LibraryView,
    w: replica::LibraryView,
    rows: Seq<tables::QueueRowView>,
    f: spec_fn(tables::QueueRowView) -> tables::QueueRowView,
    playlists: Seq<Seq<char>>,
)
    requires
        w.shows == v.shows,
        w.episodes == v.episodes,
        forall|q: tables::QueueRowView|
            (#[trigger] f(q)).episode_id == q.episode_id && f(q).show_id == q.show_id
                && f(q).playlist == q.playlist && f(q).play_order == q.play_order,
    ensures
        rounds::stored_entries(w, rows.map_values(f), playlists) == rounds::stored_entries(
            v,
            rows,
            playlists,
        ),
    decreases rows.len(),
{
    let mapped = rows.map_values(f);
    if rows.len() > 0 {
        lemma_restated_entries(v, w, rows.drop_last(), f, playlists);
        assert(mapped.drop_last() =~= rows.drop_last().map_values(f));
        assert(mapped.last() == f(rows.last()));
        assert(rounds::stored_entry(w, f(rows.last()), playlists) == rounds::stored_entry(
            v,
            rows.last(),
            playlists,
        ));
    }
}

/// Once the episode at which the stored round goes on is open, the round is the same
/// and goes on at the same place: closing the player in the middle of an episode
/// does not pass over it.
pub proof fn law_open_episode_is_gone_on_with(r: RunnerView, v: replica::LibraryView, now: Seq<char>)
    requires
        v.well_formed(),
        rounds::stored_round(v, r.playlists).0.len() > 0,
        r.selected() matches Some(c) && c.episode_id == rounds::stored_round(
            v,
            r.playlists,
        ).0[rounds::stored_round(v, r.playlists).1 as int].episode_id,
    ensures
        rounds::stored_round(runner::opened(r, v, now), r.playlists) == rounds::stored_round(
            v,
            r.playlists,
        ),
{
    let c = r.selected()->0;
    let w = runner::opened(r, v, now);
    let pls = r.playlists;
    let f = |q: tables::QueueRowView| restated(q, c.episode_id, "playing"@, c.playlist, now);
    let rows = sorting::in_order::<QueueRow>(v.queue);
    let after = sorting::in_order::<QueueRow>(w.queue);
    assert(w.queue =~= v.queue.map_values(f));
    sorting::lemma_in_order_map::<QueueRow>(v.queue, f);
    assert(after == rows.map_values(f));
    lemma_queue_in_order(v);
    lemma_restated_entries(v, w, rows, f, pls);
    lemma_goes_on_at(v, rows, pls);
    lemma_goes_on_at(w, after, pls);
    let pos = rounds::stored_round(v, pls).1;
    let m = choose|m: int|
        #![trigger entries_before(v, rows, pls, m)]
        0 <= m < rows.len() && pos == entries_before(v, rows, pls, m) && is_playable(
            v,
            rows[m],
            pls,
        ) && is_left(rows[m]) && forall|n: int|
            0 <= n < m ==> !(is_playable(v, #[trigger] rows[n], pls) && is_left(rows[n]));
    lemma_stored_entry(v, rows[m], pls);
    lemma_entry_of_row(v, rows, pls, m);
    assert(rows[m].episode_id == c.episode_id);
    assert forall|n: int| 0 <= n < rows.len() implies is_playable(w, #[trigger] after[n], pls)
        == is_playable(v, rows[n], pls) by {
        assert(after[n] == f(rows[n]));
        lemma_stored_entry(v, rows[n], pls);
        lemma_stored_entry(w, after[n], pls);
        assert(rounds::stored_entry(w, f(rows[n]), pls) == rounds::stored_entry(v, rows[n], pls));
    }
    assert(after[m] == f(rows[m]));
    assert(is_playable(w, after[m], pls) && is_left(after[m]));
    assert forall|n: int| 0 <= n < m implies !(is_playable(w, #[trigger] after[n], pls) && is_left(
        after[n],
    )) by {
        assert(after[n] == f(rows[n]));
        assert(rows[n].episode_id != rows[m].episode_id);
    }
    let k = choose|k: int|
        #![trigger entries_before(w, after, pls, k)]
        0 <= k < after.len() && rounds::first_open(w, after, pls) == Some(
            entries_before(w, after, pls, k),
        ) && is_playable(w, after[k], pls) && is_left(after[k]) && forall|n: int|
            0 <= n < k ==> !(is_playable(w, #[trigger] after[n], pls) && is_left(after[n]));
    assert(k == m);
    lemma_restated_entries(v, w, rows.take(m), f, pls);
    assert(rows.take(m).map_values(f) =~= after.take(m));
}

/// What setting the state of an entry does to the rows of the stored round: the rows
/// of the episode have the state, and of every row the episode, the show, the place,
/// the playlist and otherwise the state are what they were.
spec fn only_restated(
    before: Seq<tables::QueueRowView>,
    after: Seq<tables::QueueRowView>,
    episode_id: Seq<char>,
    left: bool,
) -> bool {
    &&& after.len() == before.len()
    &&& forall|i: int|
        #![trigger after[i]]
        0 <= i < before.len() ==> {
            &&& after[i].episode_id == before[i].episode_id
            &&& after[i].show_id == before[i].show_id
            &&& after[i].play_order == before[i].play_order
            &&& after[i].playlist == before[i].playlist
            &&& if before[i].episode_id == episode_id {
                is_left(after[i]) == left
            } else {
                after[i].state == before[i].state
            }
        }
}

proof fn lemma_states_differ()
    ensures
        "watched"@ != "pending"@,
        "watched"@ != "playing"@,
        "deferred"@ != "pending"@,
        "deferred"@ != "playing"@,
{
    reveal_strlit("watched");
    reveal_strlit("deferred");
    reveal_strlit("pending");
    reveal_strlit("playing");
    assert("watched"@[0] == 'w' && "deferred"@[0] == 'd' && "pending"@[0] == 'p'
        && "playing"@[0] == 'p');
}

proof fn lemma_advance_keeps_queue(
    v: replica::LibraryView,
    batches: Seq<replica::ShowBatchView>,
    now: Seq<char>,
    ids: Seq<Seq<char>>,
)
    ensures
        replica::batches_advanced(v, batches, now, ids).queue == v.queue,
    decreases batches.len(),
{
    if batches.len() > 0 {
        lemma_advance_keeps_queue(v, batches.drop_last(), now, ids);
        let before = replica::batches_advanced(v, batches.drop_last(), now, ids);
        let b = batches.last();
        lemma_plays_keep_queue(
            before,
            replica::plays_of(before, b.show_id, b.episode_ids, now),
            now,
            ids.skip(before.history.len() - v.history.len()),
        );
    }
}

proof fn lemma_plays_keep_queue(
    v: replica::LibraryView,
    plays: Seq<engine::HistoryRowView>,
    now: Seq<char>,
    ids: Seq<Seq<char>>,
)
    ensures
        replica::plays_stored(v, plays, now, ids, true).queue == v.queue,
    decreases plays.len(),
{
    if plays.len() > 0 {
        lemma_plays_keep_queue(v, plays.drop_last(), now, ids);
    }
}

proof fn lemma_watching_restates(
    v: replica::LibraryView,
    c: rounds::RoundEntryView,
    now: Seq<char>,
    ids: Seq<Seq<char>>,
)
    ensures
        only_restated(
            v.queue,
            runner::entries_watched(v, seq![c], now, ids).queue,
            c.episode_id,
            false,
        ),
{
    let one = seq![c];
    lemma_states_differ();
    assert(one.drop_last() =~= Seq::empty());
    assert(runner::states_set(v, one.drop_last(), "watched"@, now) == v);
    let u = runner::states_set(v, one, "watched"@, now);
    assert(u == queue::entry_in_state(v, c.episode_id, "watched"@, c.playlist, now));
    lemma_advance_keeps_queue(u, replica::batches_of(runner::pairs_of(one)), now, ids);
}

proof fn lemma_closed_is_not_gone_on_with(
    v: replica::LibraryView,
    playlists: Seq<Seq<char>>,
    episode_id: Seq<char>,
)
    requires
        v.well_formed(),
        forall|i: int|
            0 <= i < v.queue.len() && (#[trigger] v.queue[i]).episode_id == episode_id ==> !is_left(
                v.queue[i],
            ),
    ensures
        ({
            let (round, pos) = rounds::stored_round(v, playlists);
            round.len() > 0 ==> round[pos as int].episode_id != episode_id
        }),
{
    let (round, pos) = rounds::stored_round(v, playlists);
    if round.len() > 0 && round[pos as int].episode_id == episode_id {
        let rows = sorting::in_order::<QueueRow>(v.queue);
        sorting::lemma_in_order::<QueueRow>(v.queue);
        lemma_goes_on_at(v, rows, playlists);
        let m = choose|m: int|
            #![trigger entries_before(v, rows, playlists, m)]
            0 <= m < rows.len() && pos == entries_before(v, rows, playlists, m) && is_playable(
                v,
                rows[m],
                playlists,
            ) && is_left(rows[m]) && forall|n: int|
                0 <= n < m ==> !(is_playable(v, #[trigger] rows[n], playlists) && is_left(rows[n]));
        lemma_stored_entry(v, rows[m], playlists);
        lemma_entry_of_row(v, rows, playlists, m);
        assert(rows.contains(rows[m]));
        let i = choose|i: int| 0 <= i < v.queue.len() && v.queue[i] == rows[m];
        assert(v.queue[i].episode_id == episode_id);
    }
}

/// Opening an entry marks it as one to go on with, and changes no other entry of
/// the stored round.
pub proof fn law_opened_entry_is_left(r: RunnerView, v: replica::LibraryView, now: Seq<char>, i: int)
    requires
        r.selected() is Some,
        0 <= i < v.queue.len(),
    ensures
        ({
            let w = runner::opened(r, v, now);
            &&& w.queue.len() == v.queue.len()
            &&& w.queue[i].episode_id == v.queue[i].episode_id
            &&& w.queue[i].play_order == v.queue[i].play_order
            &&& w.queue[i].playlist == v.queue[i].playlist
            &&& v.queue[i].episode_id == r.selected()->0.episode_id ==> is_left(w.queue[i])
            &&& v.queue[i].episode_id != r.selected()->0.episode_id ==> w.queue[i].state
                == v.queue[i].state
            &&& w.shows == v.shows && w.episodes == v.episodes && w.history == v.history
        }),
{
}

/// An entry that was skipped, or played to its end without having been deferred, is
/// over in the stored round: the round never goes on with it, and every other entry
/// is as it was.
pub proof fn law_watched_entry_is_over(
    r: RunnerView,
    v: replica::LibraryView,
    now: Seq<char>,
    ids: Seq<Seq<char>>,
    playlists: Seq<Seq<char>>,
    i: int,
)
    requires
        v.well_formed(),
        0 <= i < v.queue.len(),
    ensures
        r.selected() matches Some(c) ==> {
            let w = runner::skipped(r, v, now, ids);
            let (round, pos) = rounds::stored_round(w, playlists);
            &&& w.queue.len() == v.queue.len()
            &&& w.queue[i].episode_id == v.queue[i].episode_id
            &&& w.queue[i].play_order == v.queue[i].play_order
            &&& v.queue[i].episode_id == c.episode_id ==> !is_left(w.queue[i])
            &&& v.queue[i].episode_id != c.episode_id ==> w.queue[i].state == v.queue[i].state
            &&& round.len() > 0 ==> round[pos as int].episode_id != c.episode_id
        },
        r.playing matches Some(c) && !r.deferred.contains(c.episode_id) ==> {
            let c = r.playing->0;
            let w = runner::ended(r, v, now, ids);
            let (round, pos) = rounds::stored_round(w, playlists);
            &&& w.queue.len() == v.queue.len()
            &&& w.queue[i].episode_id == v.queue[i].episode_id
            &&& w.queue[i].play_order == v.queue[i].play_order
            &&& v.queue[i].episode_id == c.episode_id ==> !is_left(w.queue[i])
            &&& v.queue[i].episode_id != c.episode_id ==> w.queue[i].state == v.queue[i].state
            &&& round.len() > 0 ==> round[pos as int].episode_id != c.episode_id
        },
{
    match r.selected() {
        Some(c) => {
            let w = runner::skipped(r, v, now, ids);
            lemma_watching_restates(v, c, now, ids);
            lemma_watching_keeps_well_formed(v, c, now, ids);
            assert forall|k: int|
                0 <= k < w.queue.len() && (#[trigger] w.queue[k]).episode_id
                    == c.episode_id implies !is_left(w.queue[k]) by {
                assert(v.queue[k].episode_id == c.episode_id);
            }
            assert(w.queue[i].episode_id == v.queue[i].episode_id);
            lemma_closed_is_not_gone_on_with(w, playlists, c.episode_id);
        },
        None => {},
    }
    match r.playing {
        Some(c) => if !r.deferred.contains(c.episode_id) {
            let w = runner::ended(r, v, now, ids);
            lemma_watching_restates(v, c, now, ids);
            lemma_watching_keeps_well_formed(v, c, now, ids);
            assert forall|k: int|
                0 <= k < w.queue.len() && (#[trigger] w.queue[k]).episode_id
                    == c.episode_id implies !is_left(w.queue[k]) by {
                assert(v.queue[k].episode_id == c.episode_id);
            }
            assert(w.queue[i].episode_id == v.queue[i].episode_id);
            lemma_closed_is_not_gone_on_with(w, playlists, c.episode_id);
        },
        None => {},
    }
}

proof fn lemma_watching_keeps_well_formed(
    v: replica::LibraryView,
    c: rounds::RoundEntryView,
    now: Seq<char>,
    ids: Seq<Seq<char>>,
)
    requires
        v.well_formed(),
    ensures
        runner::entries_watched(v, seq![c], now, ids).well_formed(),
{
    let one = seq![c];
    assert(one.drop_last() =~= Seq::empty());
    assert(runner::states_set(v, one.drop_last(), "watched"@, now) == v);
    let u = runner::states_set(v, one, "watched"@, now);
    crate::laws::law_round_changes_keep_keys(
        v,
        Seq::empty(),
        c.episode_id,
        "watched"@,
        c.playlist,
        now,
    );
    crate::laws::law_watching_keeps_keys(
        u,
        runner::pairs_of(one),
        Seq::empty(),
        Seq::empty(),
        now,
        ids,
    );
}

// ── deferring ───────────────────────────────────────────────────────────

/// Deferring applies to an episode if and only if its show is in the library and
/// the episode is one of the show's, unwatched.
pub proof fn law_what_can_be_deferred(
    v: replica::LibraryView,
    show_id: Seq<char>,
    episode_id: Seq<char>,
)
    requires
        v.well_formed(),
    ensures
        replica::defers(v, show_id, episode_id) <==> {
            &&& exists|s: int| 0 <= s < v.shows.len() && (#[trigger] v.shows[s]).id == show_id
            &&& exists|e: int|
                0 <= e < v.episodes.len() && (#[trigger] v.episodes[e]).id == episode_id
                    && v.episodes[e].show_id == show_id && v.episodes[e].watched_at is None
        },
{
    tables::lemma_place::<ShowRow>(v.shows, show_id);
    match replica::show_of(v, show_id) {
        Some(s) => {
            let i = tables::place::<ShowRow>(v.shows, show_id)->0;
            assert(ShowRow::key(v.shows[i]) == show_id);
            assert(v.shows[i].id == show_id);
            let raw = replica::episodes_in(v.episodes, show_id);
            sorting::lemma_in_order::<Episode>(raw);
            engine::lemma_last_named(s.episodes, episode_id);
            crate::laws::lemma_show_episodes_distinct(v, show_id);
            if exists|e: int|
                0 <= e < v.episodes.len() && (#[trigger] v.episodes[e]).id == episode_id
                    && v.episodes[e].show_id == show_id && v.episodes[e].watched_at is None {
                let e = choose|e: int|
                    0 <= e < v.episodes.len() && (#[trigger] v.episodes[e]).id == episode_id
                        && v.episodes[e].show_id == show_id && v.episodes[e].watched_at is None;
                lemma_episodes_in_has(v.episodes, show_id, e);
                assert(s.episodes.contains(replica::to_episode(v.episodes[e])));
                let k = choose|k: int|
                    0 <= k < s.episodes.len() && s.episodes[k] == replica::to_episode(
                        v.episodes[e],
                    );
                assert(s.episodes[k].id == episode_id);
                let l = engine::last_named(s.episodes, episode_id)->0;
                if k < l {
                    assert(s.episodes[k].id != s.episodes[l].id);
                }
                assert(k == l);
            }
            if engine::can_defer(s.episodes, episode_id) {
                let l = engine::last_named(s.episodes, episode_id)->0;
                assert(s.episodes.contains(s.episodes[l]));
                crate::laws::lemma_episodes_in_rows(v.episodes, show_id, s.episodes[l]);
                let e = choose|e: int|
                    0 <= e < v.episodes.len() && (#[trigger] v.episodes[e]).show_id == show_id
                        && replica::to_episode(v.episodes[e]) == s.episodes[l];
                assert(v.episodes[e].id == episode_id);
            }
        },
        None => {
            if exists|s: int| 0 <= s < v.shows.len() && (#[trigger] v.shows[s]).id == show_id {
                let s = choose|s: int|
                    0 <= s < v.shows.len() && (#[trigger] v.shows[s]).id == show_id;
                assert(ShowRow::key(v.shows[s]) == show_id);
            }
        },
    }
}

/// Deferring the selected entry sends its episode behind all others of the show,
/// unwatched as it was, and takes it out of the stored round: its entry is neither
/// waiting nor playing any more, so the round never goes on with it. Every other
/// episode and every other entry is as it was.
pub proof fn law_deferred_entry_is_out_of_the_round(
    r: RunnerView,
    v: replica::LibraryView,
    now: Seq<char>,
    playlists: Seq<Seq<char>>,
    s: int,
    e: int,
)
    requires
        v.well_formed(),
        r.selected() is Some,
        0 <= s < v.shows.len(),
        v.shows[s].id == r.selected()->0.show_id,
        0 <= e < v.episodes.len(),
        v.episodes[e].id == r.selected()->0.episode_id,
        v.episodes[e].show_id == r.selected()->0.show_id,
        v.episodes[e].watched_at is None,
        forall|j: int|
            0 <= j < v.episodes.len() && (#[trigger] v.episodes[j]).show_id
                == v.episodes[e].show_id ==> v.episodes[j].position < i64::MAX,
    ensures
        ({
            let c = r.selected()->0;
            let w = runner::deferred_in(r, v, now);
            let (round, pos) = rounds::stored_round(w, playlists);
            &&& w.episodes.len() == v.episodes.len()
            &&& w.episodes[e] == (tables::EpisodeRowView {
                position: w.episodes[e].position,
                updated_at: now,
                ..v.episodes[e]
            })
            &&& forall|j: int|
                #![trigger w.episodes[j]]
                0 <= j < v.episodes.len() && j != e ==> w.episodes[j] == v.episodes[j] && (
                v.episodes[j].show_id == c.show_id ==> w.episodes[e].position
                    > v.episodes[j].position)
            &&& w.shows == v.shows && w.history == v.history
            &&& w.queue.len() == v.queue.len()
            &&& forall|i: int|
                #![trigger w.queue[i]]
                0 <= i < v.queue.len() ==> {
                    &&& w.queue[i].episode_id == v.queue[i].episode_id
                    &&& w.queue[i].play_order == v.queue[i].play_order
                    &&& w.queue[i].playlist == v.queue[i].playlist
                    &&& v.queue[i].episode_id == c.episode_id ==> w.queue[i].state != "pending"@
                        && w.queue[i].state != "playing"@
                    &&& v.queue[i].episode_id != c.episode_id ==> w.queue[i].state
                        == v.queue[i].state
                }
            &&& round.len() > 0 ==> round[pos as int].episode_id != c.episode_id
        }),
{
    let c = r.selected()->0;
    let w = runner::deferred_in(r, v, now);
    let d = replica::deferred(v, c.show_id, c.episode_id, now);
    lemma_states_differ();
    law_what_can_be_deferred(v, c.show_id, c.episode_id);
    assert(replica::defers(v, c.show_id, c.episode_id));
    tables::lemma_place::<ShowRow>(v.shows, c.show_id);
    let show = replica::show_of(v, c.show_id)->0;
    let raw = replica::episodes_in(v.episodes, c.show_id);
    sorting::lemma_in_order::<Episode>(raw);
    engine::lemma_highest_position(show.episodes);
    assert forall|k: int|
        #![trigger show.episodes[k]]
        0 <= k < show.episodes.len() implies raw.contains(show.episodes[k]) by {
        assert(show.episodes.contains(show.episodes[k]));
    }
    lemma_highest_below(show.episodes, v.episodes, c.show_id);
    let high = engine::highest_position(show.episodes);
    assert forall|j: int|
        0 <= j < v.episodes.len() && (#[trigger] v.episodes[j]).show_id == c.show_id implies v.episodes[j].position
        <= high by {
        lemma_episodes_in_has(v.episodes, c.show_id, j);
        assert(show.episodes.contains(replica::to_episode(v.episodes[j])));
        let k = choose|k: int|
            0 <= k < show.episodes.len() && show.episodes[k] == replica::to_episode(v.episodes[j]);
        assert(show.episodes[k].position <= high);
    }
    assert forall|j: int|
        #![trigger w.episodes[j]]
        0 <= j < v.episodes.len() && j != e implies w.episodes[j] == v.episodes[j] && (
    v.episodes[j].show_id == c.show_id ==> w.episodes[e].position > v.episodes[j].position) by {
        if j < e {
            assert(EpisodeRow::key(v.episodes[j]) != EpisodeRow::key(v.episodes[e]));
        } else {
            assert(EpisodeRow::key(v.episodes[e]) != EpisodeRow::key(v.episodes[j]));
        }
    }
    crate::laws::law_editing_keeps_keys(
        v,
        c.show_id,
        c.episode_id,
        None,
        false,
        None,
        None,
        None,
        None,
        now,
    );
    crate::laws::law_round_changes_keep_keys(
        d,
        Seq::empty(),
        c.episode_id,
        "deferred"@,
        c.playlist,
        now,
    );
    assert forall|i: int|
        0 <= i < w.queue.len() && (#[trigger] w.queue[i]).episode_id == c.episode_id implies !is_left(
        w.queue[i],
    ) by {
    }
    lemma_closed_is_not_gone_on_with(w, playlists, c.episode_id);
}

proof fn lemma_highest_below(
    eps: Seq<engine::EpisodeView>,
    rows: Seq<tables::EpisodeRowView>,
    show_id: Seq<char>,
)
    requires
        forall|k: int|
            #![trigger eps[k]]
            0 <= k < eps.len() ==> replica::episodes_in(rows, show_id).contains(eps[k]),
        forall|j: int|
            0 <= j < rows.len() && (#[trigger] rows[j]).show_id == show_id ==> rows[j].position
                < i64::MAX,
    ensures
        engine::highest_position(eps) < i64::MAX,
    decreases eps.len(),
{
    if eps.len() > 0 {
        let front = eps.drop_last();
        assert forall|k: int|
            #![trigger front[k]]
            0 <= k < front.len() implies replica::episodes_in(rows, show_id).contains(front[k]) by {
            assert(front[k] == eps[k]);
        }
        lemma_highest_below(front, rows, show_id);
        let last = eps[eps.len() - 1];
        assert(replica::episodes_in(rows, show_id).contains(last));
        crate::laws::lemma_episodes_in_rows(rows, show_id, last);
        let i = choose|i: int|
            0 <= i < rows.len() && (#[trigger] rows[i]).show_id == show_id && replica::to_episode(
                rows[i],
            ) == last;
        assert(rows[i].position < i64::MAX);
    }
}

// ── new episodes ────────────────────────────────────────────────────────

/// The paths that are new stand in the order of the scan: where a path that is new
/// ends up among them.
proof fn lemma_unknown_at(paths: Seq<Seq<char>>, known: Seq<Seq<char>>, i: int)
    requires
        0 <= i < paths.len(),
        !known.contains(paths[i]),
    ensures
        library::unknown_paths(paths.take(i), known).len() < library::unknown_paths(
            paths,
            known,
        ).len(),
        library::unknown_paths(paths, known)[library::unknown_paths(
            paths.take(i),
            known,
        ).len() as int] == paths[i],
    decreases paths.len(),
{
    let front = paths.drop_last();
    if i < front.len() {
        assert(front.take(i) =~= paths.take(i));
        assert(front[i] == paths[i]);
        lemma_unknown_at(front, known, i);
    } else {
        assert(paths.take(i) =~= front);
    }
}

proof fn lemma_unknown_from(paths: Seq<Seq<char>>, known: Seq<Seq<char>>, r: int) -> (i: int)
    requires
        0 <= r < library::unknown_paths(paths, known).len(),
    ensures
        0 <= i < paths.len(),
        !known.contains(paths[i]),
        library::unknown_paths(paths, known)[r] == paths[i],
        library::unknown_paths(paths.take(i), known).len() == r,
    decreases paths.len(),
{
    let front = paths.drop_last();
    let last = paths.len() - 1;
    assert(paths.take(last) =~= front);
    if r < library::unknown_paths(front, known).len() {
        let i = lemma_unknown_from(front, known, r);
        assert(front.take(i) =~= paths.take(i));
        i
    } else {
        last
    }
}

proof fn lemma_unknown_grows(paths: Seq<Seq<char>>, known: Seq<Seq<char>>, i: int, j: int)
    requires
        0 <= i < j <= paths.len(),
        !known.contains(paths[i]),
    ensures
        library::unknown_paths(paths.take(i), known).len() < library::unknown_paths(
            paths.take(j),
            known,
        ).len(),
    decreases j,
{
    assert(paths.take(j).drop_last() =~= paths.take(j - 1));
    assert(paths.take(j).last() == paths[j - 1]);
    if i < j - 1 {
        lemma_unknown_grows(paths, known, i, j - 1);
    }
}

proof fn lemma_paths_in(rows: Seq<tables::EpisodeRowView>, show_id: Seq<char>, p: Seq<char>)
    ensures
        library::paths_in(rows, show_id).contains(p) <==> exists|e: int|
            0 <= e < rows.len() && (#[trigger] rows[e]).show_id == show_id && rows[e].relative_path
                == p,
    decreases rows.len(),
{
    let all = library::paths_in(rows, show_id);
    if rows.len() > 0 {
        let front = rows.drop_last();
        let last = rows.len() - 1;
        let some = library::paths_in(front, show_id);
        lemma_paths_in(front, show_id, p);
        if all.contains(p) {
            let k = choose|k: int| 0 <= k < all.len() && all[k] == p;
            if k < some.len() {
                assert(some[k] == p);
                assert(some.contains(p));
                let e = choose|e: int|
                    0 <= e < front.len() && (#[trigger] front[e]).show_id == show_id
                        && front[e].relative_path == p;
                assert(rows[e].show_id == show_id);
            } else {
                assert(rows[last].show_id == show_id);
            }
        }
        if exists|e: int|
            0 <= e < rows.len() && (#[trigger] rows[e]).show_id == show_id && rows[e].relative_path
                == p {
            let e = choose|e: int|
                0 <= e < rows.len() && (#[trigger] rows[e]).show_id == show_id
                    && rows[e].relative_path == p;
            if e < last {
                assert(front[e].show_id == show_id);
                assert(some.contains(p));
                let k = choose|k: int| 0 <= k < some.len() && some[k] == p;
                assert(all[k] == p);
            } else {
                assert(all[all.len() - 1] == p);
            }
        }
    }
}

proof fn lemma_behind(rows: Seq<tables::EpisodeRowView>, show_id: Seq<char>, e: int)
    ensures
        i64::MIN < library::position_behind(rows, show_id) <= i64::MAX + 1,
        0 <= e < rows.len() && rows[e].show_id == show_id ==> rows[e].position
            < library::position_behind(rows, show_id),
        library::episode_count(rows, show_id) == 0 ==> !(0 <= e < rows.len() && rows[e].show_id
            == show_id),
    decreases rows.len(),
{
    if rows.len() > 0 {
        lemma_behind(rows.drop_last(), show_id, e);
    }
}

/// A rescan appends what is new in the order of the scan: of two paths that the
/// show did not have, the one that the scan lists first has the lower position, and
/// both stand behind every episode that the show had. Both are unwatched.
pub proof fn law_rescan_keeps_the_order_of_the_scan(
    v: replica::LibraryView,
    show_id: Seq<char>,
    paths: Seq<Seq<char>>,
    now: Seq<char>,
    ids: Seq<Seq<char>>,
    i: int,
    j: int,
    a: int,
    b: int,
    e: int,
)
    requires
        library::rescan_fits(v, show_id, paths),
        0 <= i < j < paths.len(),
        forall|k: int|
            0 <= k < v.episodes.len() && (#[trigger] v.episodes[k]).show_id == show_id
                ==> v.episodes[k].relative_path != paths[i] && v.episodes[k].relative_path
                != paths[j],
        forall|k: int| 0 <= k < paths.len() && #[trigger] paths[k] == paths[i] ==> k == i,
        forall|k: int| 0 <= k < paths.len() && #[trigger] paths[k] == paths[j] ==> k == j,
    ensures
        ({
            let rows = library::rescanned(v, show_id, paths, now, ids).episodes;
            let of = |k: int, p: int| 0 <= k < rows.len() && rows[k].show_id == show_id
                && rows[k].relative_path == paths[p];
            &&& of(a, i) && of(b, j) ==> rows[a].position < rows[b].position
            &&& of(a, i) ==> rows[a].watched_at is None && rows[a].resume_pos is None
            &&& of(a, i) && 0 <= e < v.episodes.len() && v.episodes[e].show_id == show_id
                ==> v.episodes[e].position < rows[a].position
            &&& exists|k: int|
                0 <= k < rows.len() && (#[trigger] rows[k]).show_id == show_id
                    && rows[k].relative_path == paths[i]
            &&& exists|k: int|
                0 <= k < rows.len() && (#[trigger] rows[k]).show_id == show_id
                    && rows[k].relative_path == paths[j]
        }),
{
    let known = library::paths_in(v.episodes, show_id);
    let added = library::unknown_paths(paths, known);
    let first = library::position_behind(v.episodes, show_id);
    let rows = library::rescanned(v, show_id, paths, now, ids).episodes;
    let n = v.episodes.len();
    lemma_paths_in(v.episodes, show_id, paths[i]);
    lemma_paths_in(v.episodes, show_id, paths[j]);
    lemma_behind(v.episodes, show_id, e);
    lemma_unknown_at(paths, known, i);
    lemma_unknown_at(paths, known, j);
    lemma_unknown_grows(paths, known, i, j);
    let x = library::unknown_paths(paths.take(i), known).len() as int;
    let y = library::unknown_paths(paths.take(j), known).len() as int;
    assert(rows[n + x].relative_path == paths[i] && rows[n + x].position == first + x);
    assert(rows[n + y].relative_path == paths[j] && rows[n + y].position == first + y);
    if 0 <= a < rows.len() && rows[a].show_id == show_id && rows[a].relative_path == paths[i] {
        if a < n {
            assert(rows[a] == v.episodes[a]);
        }
        let p = lemma_unknown_from(paths, known, a - n);
        assert(paths[p] == paths[i]);
    }
    if 0 <= b < rows.len() && rows[b].show_id == show_id && rows[b].relative_path == paths[j] {
        if b < n {
            assert(rows[b] == v.episodes[b]);
        }
        let p = lemma_unknown_from(paths, known, b - n);
        assert(paths[p] == paths[j]);
    }
}

proof fn lemma_behind_bound(rows: Seq<tables::EpisodeRowView>, show_id: Seq<char>, bound: int)
    requires
        bound >= -1,
        forall|k: int|
            0 <= k < rows.len() && (#[trigger] rows[k]).show_id == show_id ==> rows[k].position
                <= bound,
    ensures
        library::position_behind(rows, show_id) <= bound + 1,
    decreases rows.len(),
{
    if rows.len() > 0 {
        let front = rows.drop_last();
        assert forall|k: int|
            0 <= k < front.len() && (#[trigger] front[k]).show_id == show_id implies front[k].position
            <= bound by {
            assert(rows[k].show_id == show_id);
        }
        lemma_behind_bound(front, show_id, bound);
        assert(rows[rows.len() - 1] == rows.last());
    }
}

proof fn lemma_unknown_bound(paths: Seq<Seq<char>>, known: Seq<Seq<char>>)
    ensures
        library::unknown_paths(paths, known).len() <= paths.len(),
    decreases paths.len(),
{
    if paths.len() > 0 {
        lemma_unknown_bound(paths.drop_last(), known);
    }
}

/// A rescan is refused for want of positions only where the show's positions come
/// within the length of the scan of the highest number there is.
pub proof fn law_rescan_has_positions(
    v: replica::LibraryView,
    show_id: Seq<char>,
    paths: Seq<Seq<char>>,
)
    requires
        paths.len() <= i64::MAX,
        forall|k: int|
            0 <= k < v.episodes.len() && (#[trigger] v.episodes[k]).show_id == show_id
                ==> v.episodes[k].position + paths.len() <= i64::MAX,
    ensures
        library::rescan_fits(v, show_id, paths),
{
    lemma_behind_bound(v.episodes, show_id, i64::MAX - paths.len());
    lemma_unknown_bound(paths, library::paths_in(v.episodes, show_id));
}

/// A rescan leaves every row that was there as it is, and adds one row for each path
/// of the scan that the show did not have, and no other.
pub proof fn law_rescan_adds_what_is_new(
    v: replica::LibraryView,
    show_id: Seq<char>,
    paths: Seq<Seq<char>>,
    now: Seq<char>,
    ids: Seq<Seq<char>>,
    k: int,
)
    ensures
        ({
            let rows = library::rescanned(v, show_id, paths, now, ids).episodes;
            &&& rows.len() >= v.episodes.len()
            &&& 0 <= k < v.episodes.len() ==> rows[k] == v.episodes[k]
            &&& v.episodes.len() <= k < rows.len() ==> {
                &&& rows[k].show_id == show_id
                &&& rows[k].id == ids[k - v.episodes.len()]
                &&& paths.contains(rows[k].relative_path)
                &&& forall|e: int|
                    0 <= e < v.episodes.len() && (#[trigger] v.episodes[e]).show_id == show_id
                        ==> v.episodes[e].relative_path != rows[k].relative_path
            }
        }),
{
    let known = library::paths_in(v.episodes, show_id);
    let rows = library::rescanned(v, show_id, paths, now, ids).episodes;
    if v.episodes.len() <= k < rows.len() {
        let p = lemma_unknown_from(paths, known, k - v.episodes.len());
        lemma_paths_in(v.episodes, show_id, rows[k].relative_path);
    }
}

/// A show that is added has one row for each path, in the order given: the first at
/// position zero, each next one behind, all unwatched.
pub proof fn law_added_show_numbers_its_episodes(
    v: replica::LibraryView,
    playlist: Seq<char>,
    name: Seq<char>,
    root_path: Seq<char>,
    paths: Seq<Seq<char>>,
    now: Seq<char>,
    show_id: Seq<char>,
    ids: Seq<Seq<char>>,
    k: int,
)
    requires
        0 <= k < paths.len() <= i64::MAX,
    ensures
        ({
            let w = library::show_added(v, playlist, name, root_path, paths, now, show_id, ids);
            let row = w.episodes[v.episodes.len() + k];
            &&& w.episodes.len() == v.episodes.len() + paths.len()
            &&& forall|e: int|
                0 <= e < v.episodes.len() ==> #[trigger] w.episodes[e] == v.episodes[e]
            &&& row.id == ids[k]
            &&& row.show_id == show_id
            &&& row.relative_path == paths[k]
            &&& row.position == k
            &&& row.watched_at is None && row.resume_pos is None
            &&& w.shows.len() == v.shows.len() + 1
            &&& w.shows.last().id == show_id && w.shows.last().playlist == playlist
            &&& w.shows.last().name == name && w.shows.last().root_path == root_path
            &&& w.shows.last().removed_at is None && w.shows.last().date_added == Some(now)
        }),
{
}

} // verus!
