//! What is counted and told of the library: the statistics, the history of a show
//! and what the origin is given, told from the rows.

use vstd::prelude::*;
use vstd::utf8::*;

use crate::json;
use crate::json::JsonView;
use crate::library;
use crate::model;
use crate::origin;
use crate::outcomes;
use crate::replica;
use crate::sorting;
use crate::stats;
use crate::stats::{PerShow, PerShowView, Recent, RecentView};
use crate::tables;
use crate::tables::{EpisodeRow, HistoryEntry, Keyed, QueueRow, QueueStamp, ShowRow};
use crate::text;

verus! {

// ── the history of a show ───────────────────────────────────────────────

/// The first time is not later than the second, in the order of their spellings.
pub open spec fn is_no_later(a: Seq<char>, b: Seq<char>) -> bool {
    outcomes::bytes_not_behind(encode_utf8(a), encode_utf8(b))
}

/// The plays of a show are the rows of the history that name it, in their order, and
/// in its history they stand oldest first.
pub proof fn law_history_of_a_show(
    rows: Seq<tables::HistoryEntryView>,
    show_id: Seq<char>,
    i: int,
    j: int,
)
    ensures
        ({
            let plays = stats::plays_in(rows, show_id);
            let told = sorting::in_order::<HistoryEntry>(plays);
            &&& plays == rows.filter(|h: tables::HistoryEntryView| h.show_id == show_id)
            &&& told.to_multiset() == plays.to_multiset()
            &&& 0 <= i < j < told.len() ==> is_no_later(told[i].played_at, told[j].played_at)
        }),
{
    let plays = stats::plays_in(rows, show_id);
    lemma_plays_in(rows, show_id);
    sorting::lemma_in_order::<HistoryEntry>(plays);
    let told = sorting::in_order::<HistoryEntry>(plays);
    if 0 <= i < j < told.len() {
        assert(<HistoryEntry as sorting::Sortable>::leq(told[i], told[j]));
        outcomes::lemma_bytes_not_behind(
            encode_utf8(told[i].played_at),
            encode_utf8(told[j].played_at),
        );
    }
}

proof fn lemma_plays_in(rows: Seq<tables::HistoryEntryView>, show_id: Seq<char>)
    ensures
        stats::plays_in(rows, show_id) == rows.filter(
            |h: tables::HistoryEntryView| h.show_id == show_id,
        ),
    decreases rows.len(),
{
    reveal(Seq::filter);
    if rows.len() > 0 {
        lemma_plays_in(rows.drop_last(), show_id);
    }
}

/// A show was last played at the latest time of its plays; never, if and only if the
/// history has no play of it.
pub proof fn law_last_played_is_the_latest(
    rows: Seq<tables::HistoryEntryView>,
    show_id: Seq<char>,
    i: int,
)
    ensures
        stats::last_played(rows, show_id) is None ==> forall|k: int|
            0 <= k < rows.len() ==> (#[trigger] rows[k]).show_id != show_id,
        stats::last_played(rows, show_id) matches Some(t) ==> (exists|k: int|
            0 <= k < rows.len() && (#[trigger] rows[k]).show_id == show_id && rows[k].played_at
                == t) && (0 <= i < rows.len() && rows[i].show_id == show_id ==> is_no_later(
            rows[i].played_at,
            t,
        )),
{
    lemma_last_played(rows, show_id);
    match stats::last_played(rows, show_id) {
        Some(t) => {
            if 0 <= i < rows.len() && rows[i].show_id == show_id {
                outcomes::lemma_bytes_not_behind(encode_utf8(rows[i].played_at), encode_utf8(t));
            }
        },
        None => {},
    }
}

proof fn lemma_last_played(rows: Seq<tables::HistoryEntryView>, show_id: Seq<char>)
    ensures
        stats::last_played(rows, show_id) is None ==> forall|k: int|
            0 <= k < rows.len() ==> (#[trigger] rows[k]).show_id != show_id,
        stats::last_played(rows, show_id) matches Some(t) ==> (exists|k: int|
            0 <= k < rows.len() && (#[trigger] rows[k]).show_id == show_id && rows[k].played_at
                == t) && forall|k: int|
            0 <= k < rows.len() && (#[trigger] rows[k]).show_id == show_id ==> !text::text_before(
                t,
                rows[k].played_at,
            ),
    decreases rows.len(),
{
    if rows.len() > 0 {
        let front = rows.drop_last();
        let n = rows.len() - 1;
        lemma_last_played(front, show_id);
        assert(rows[n] == rows.last());
        let before = stats::last_played(front, show_id);
        let after = stats::last_played(rows, show_id);
        if before is Some {
            let k = choose|k: int|
                0 <= k < front.len() && (#[trigger] front[k]).show_id == show_id
                    && front[k].played_at == before->0;
            assert(rows[k] == front[k]);
        }
        match after {
            Some(t) => {
                assert forall|k: int|
                    0 <= k < rows.len() && (#[trigger] rows[k]).show_id
                        == show_id implies !text::text_before(t, rows[k].played_at) by {
                    text::lemma_text_order(t, rows[n].played_at);
                    if k < n {
                        assert(front[k] == rows[k]);
                        let b = before->0;
                        text::lemma_text_order(t, rows[k].played_at);
                        text::lemma_text_order(b, rows[k].played_at);
                        text::lemma_text_order(b, t);
                        if text::text_before(t, rows[k].played_at) && text::text_before(b, t) {
                            text::lemma_text_before_transitive(b, t, rows[k].played_at);
                        }
                    } else if before is Some {
                        text::lemma_text_order(before->0, rows[n].played_at);
                    }
                }
            },
            None => {
                assert forall|k: int| 0 <= k < rows.len() implies (#[trigger] rows[k]).show_id
                    != show_id by {
                    if k < n {
                        assert(front[k].show_id != show_id);
                    }
                }
            },
        }
    }
}

/// A finished show is told with its name, when it was added and when it was last
/// played; what is not known is empty.
pub proof fn law_farewell_tells_the_show(v: replica::LibraryView, s: int)
    requires
        v.well_formed(),
        0 <= s < v.shows.len(),
    ensures
        ({
            let told = stats::farewell(v, v.shows[s].id);
            let last = stats::last_played(v.history, v.shows[s].id);
            &&& told.id == v.shows[s].id
            &&& told.name == v.shows[s].name
            &&& v.shows[s].date_added is Some ==> told.date_added == v.shows[s].date_added->0
            &&& v.shows[s].date_added is None ==> told.date_added.len() == 0
            &&& last is Some ==> told.last_played_at == last->0
            &&& last is None ==> told.last_played_at.len() == 0
        }),
{
    lemma_place_of(v, s);
}

proof fn lemma_place_of(v: replica::LibraryView, s: int)
    requires
        v.well_formed(),
        0 <= s < v.shows.len(),
    ensures
        tables::place::<ShowRow>(v.shows, v.shows[s].id) == Some(s),
{
    assert(ShowRow::key(v.shows[s]) == v.shows[s].id);
    assert forall|j: int| 0 <= j < s implies ShowRow::key(#[trigger] v.shows[j])
        != v.shows[s].id by {
        assert(ShowRow::key(v.shows[j]) != ShowRow::key(v.shows[s]));
    }
    tables::lemma_place_is::<ShowRow>(v.shows, v.shows[s].id, s);
}

// ── the figures ─────────────────────────────────────────────────────────

/// The episodes of a show are counted, and those of them that are watched: as many as
/// there are such rows.
pub proof fn law_episodes_are_counted(rows: Seq<tables::EpisodeRowView>, show_id: Seq<char>)
    ensures
        library::episode_count(rows, show_id) == rows.filter(
            |r: tables::EpisodeRowView| r.show_id == show_id,
        ).len(),
        stats::watched_count(rows, show_id) == rows.filter(
            |r: tables::EpisodeRowView| r.show_id == show_id && r.watched_at is Some,
        ).len(),
    decreases rows.len(),
{
    reveal(Seq::filter);
    if rows.len() > 0 {
        law_episodes_are_counted(rows.drop_last(), show_id);
    }
}

/// Every show of the playlists is told of, retired ones too, with its figures.
pub proof fn law_progress_of_every_show(
    v: replica::LibraryView,
    rows: Seq<tables::ShowRowView>,
    playlists: Seq<Seq<char>>,
    i: int,
)
    requires
        v.episodes.len() <= u64::MAX,
    ensures
        ({
            let told = stats::all_per_show(v, rows, playlists);
            let listed = rows.filter(
                |r: tables::ShowRowView| playlists.contains(r.playlist),
            );
            &&& told.len() == listed.len()
            &&& 0 <= i < told.len() ==> {
                &&& told[i].name == listed[i].name
                &&& told[i].playlist == listed[i].playlist
                &&& told[i].removed == (listed[i].removed_at is Some)
                &&& told[i].total == v.episodes.filter(
                    |r: tables::EpisodeRowView| r.show_id == listed[i].id,
                ).len()
                &&& told[i].watched == v.episodes.filter(
                    |r: tables::EpisodeRowView|
                        r.show_id == listed[i].id && r.watched_at is Some,
                ).len()
            }
        }),
    decreases rows.len(),
{
    reveal(Seq::filter);
    if rows.len() > 0 {
        law_progress_of_every_show(v, rows.drop_last(), playlists, i);
        law_episodes_are_counted(v.episodes, rows.last().id);
        lemma_counts_fit(v.episodes, rows.last().id);
    }
}

proof fn lemma_counts_fit(rows: Seq<tables::EpisodeRowView>, show_id: Seq<char>)
    ensures
        stats::watched_count(rows, show_id) <= library::episode_count(rows, show_id)
            <= rows.len(),
    decreases rows.len(),
{
    if rows.len() > 0 {
        lemma_counts_fit(rows.drop_last(), show_id);
    }
}

/// The shows stand with the furthest watched first: of two with episodes, the share
/// of the first is at least that of the second, and one without episodes comes behind
/// all that have something watched.
pub proof fn law_furthest_watched_comes_first(shows: Seq<PerShowView>, i: int, j: int)
    requires
        0 <= i < j < sorting::in_order::<PerShow>(shows).len(),
    ensures
        ({
            let a = sorting::in_order::<PerShow>(shows)[i];
            let b = sorting::in_order::<PerShow>(shows)[j];
            &&& a.total > 0 && b.total > 0 ==> a.watched * b.total >= b.watched * a.total
            &&& a.total == 0 && b.total > 0 ==> b.watched == 0
        }),
        sorting::in_order::<PerShow>(shows).to_multiset() == shows.to_multiset(),
{
    sorting::lemma_in_order::<PerShow>(shows);
    let told = sorting::in_order::<PerShow>(shows);
    assert(<PerShow as sorting::Sortable>::leq(told[i], told[j]));
}

/// The finished shows are counted: as many as were retired.
pub proof fn law_finished_shows_are_counted(shows: Seq<PerShowView>)
    ensures
        stats::removed_count(shows) == shows.filter(|p: PerShowView| p.removed).len(),
    decreases shows.len(),
{
    reveal(Seq::filter);
    if shows.len() > 0 {
        law_finished_shows_are_counted(shows.drop_last());
    }
}

/// Whether an episode is of a show of the playlists.
pub open spec fn is_listed(
    v: replica::LibraryView,
    row: tables::EpisodeRowView,
    playlists: Seq<Seq<char>>,
) -> bool {
    exists|s: int|
        0 <= s < v.shows.len() && (#[trigger] v.shows[s]).id == row.show_id && playlists.contains(
            v.shows[s].playlist,
        )
}

proof fn lemma_listed(
    v: replica::LibraryView,
    row: tables::EpisodeRowView,
    playlists: Seq<Seq<char>>,
    s: int,
)
    requires
        v.well_formed(),
    ensures
        stats::listed_show(v, row.show_id, playlists) is Some <==> is_listed(v, row, playlists),
        0 <= s < v.shows.len() && v.shows[s].id == row.show_id && playlists.contains(
            v.shows[s].playlist,
        ) ==> stats::listed_show(v, row.show_id, playlists) == Some(v.shows[s].name),
{
    tables::lemma_place::<ShowRow>(v.shows, row.show_id);
    match tables::place::<ShowRow>(v.shows, row.show_id) {
        Some(i) => {
            assert(ShowRow::key(v.shows[i]) == row.show_id);
            assert(v.shows[i].id == row.show_id);
        },
        None => {},
    }
    if is_listed(v, row, playlists) {
        let x = choose|x: int|
            0 <= x < v.shows.len() && (#[trigger] v.shows[x]).id == row.show_id
                && playlists.contains(v.shows[x].playlist);
        lemma_place_of(v, x);
    }
    if 0 <= s < v.shows.len() && v.shows[s].id == row.show_id {
        lemma_place_of(v, s);
    }
}

/// The episodes of the playlists are counted: as many as are of one of their shows.
pub proof fn law_listed_episodes_are_counted(
    v: replica::LibraryView,
    rows: Seq<tables::EpisodeRowView>,
    playlists: Seq<Seq<char>>,
)
    requires
        v.well_formed(),
    ensures
        stats::listed_episodes(v, rows, playlists) == rows.filter(
            |r: tables::EpisodeRowView| is_listed(v, r, playlists),
        ).len(),
    decreases rows.len(),
{
    reveal(Seq::filter);
    if rows.len() > 0 {
        law_listed_episodes_are_counted(v, rows.drop_last(), playlists);
        lemma_listed(v, rows.last(), playlists, 0);
    }
}

/// The plays that are told are the watched episodes of the playlists, in the order of
/// the table, each with the name of its show, its path and when it was watched.
pub proof fn law_plays_are_what_was_watched(
    v: replica::LibraryView,
    rows: Seq<tables::EpisodeRowView>,
    playlists: Seq<Seq<char>>,
    i: int,
    s: int,
)
    requires
        v.well_formed(),
    ensures
        ({
            let told = stats::watched_listed(v, rows, playlists);
            let watched = rows.filter(
                |r: tables::EpisodeRowView| r.watched_at is Some && is_listed(v, r, playlists),
            );
            &&& told.len() == watched.len()
            &&& 0 <= i < told.len() ==> {
                &&& told[i].relative_path == watched[i].relative_path
                &&& watched[i].watched_at == Some(told[i].played_at)
                &&& 0 <= s < v.shows.len() && v.shows[s].id == watched[i].show_id ==> told[i].show
                    == v.shows[s].name
            }
        }),
    decreases rows.len(),
{
    reveal(Seq::filter);
    if rows.len() > 0 {
        law_plays_are_what_was_watched(v, rows.drop_last(), playlists, i, s);
        lemma_listed(v, rows.last(), playlists, s);
        if is_listed(v, rows.last(), playlists) {
            let x = choose|x: int|
                0 <= x < v.shows.len() && (#[trigger] v.shows[x]).id == rows.last().show_id
                    && playlists.contains(v.shows[x].playlist);
            lemma_place_of(v, x);
            if 0 <= s < v.shows.len() && v.shows[s].id == rows.last().show_id {
                lemma_place_of(v, s);
            }
        }
    }
}

/// The recent plays are the latest, newest first: 25 of them, or all where there are
/// fewer, and a play that is left out is no later than any that is told.
pub proof fn law_recent_plays_are_the_latest(
    plays: Seq<RecentView>,
    i: int,
    j: int,
    p: RecentView,
)
    ensures
        ({
            let told = stats::most_recent(plays);
            &&& plays.len() <= 25 ==> told.len() == plays.len()
            &&& plays.len() > 25 ==> told.len() == 25
            &&& 0 <= i < told.len() ==> plays.contains(told[i])
            &&& 0 <= i < j < told.len() ==> is_no_later(told[j].played_at, told[i].played_at)
            &&& plays.contains(p) && 0 <= i < told.len() ==> told.contains(p) || is_no_later(
                p.played_at,
                told[i].played_at,
            )
        }),
{
    let ordered = sorting::in_order::<Recent>(plays);
    let told = stats::most_recent(plays);
    sorting::lemma_in_order::<Recent>(plays);
    if 0 <= i < told.len() {
        assert(ordered[i] == told[i]);
        assert(ordered.contains(ordered[i]));
        if i < j < told.len() {
            assert(ordered[j] == told[j]);
            assert(<Recent as sorting::Sortable>::leq(ordered[i], ordered[j]));
            outcomes::lemma_bytes_not_behind(
                encode_utf8(told[j].played_at),
                encode_utf8(told[i].played_at),
            );
        }
        if plays.contains(p) && !told.contains(p) {
            assert(ordered.contains(p));
            let k = choose|k: int| 0 <= k < ordered.len() && ordered[k] == p;
            if k < told.len() {
                assert(told[k] == p);
            }
            assert(<Recent as sorting::Sortable>::leq(ordered[i], ordered[k]));
            outcomes::lemma_bytes_not_behind(
                encode_utf8(p.played_at),
                encode_utf8(told[i].played_at),
            );
        }
    }
}

/// Whether a play counts for a day: it is on the day, by the first ten characters of
/// its time, and not before the cutoff.
pub open spec fn is_on_day(p: RecentView, day: Seq<char>, cutoff: Seq<char>) -> bool {
    &&& !text::text_before(p.played_at, cutoff)
    &&& p.played_at.len() > 10 ==> p.played_at.take(10) == day
    &&& p.played_at.len() <= 10 ==> p.played_at == day
}

/// The calendar counts for each day the plays on it since the cutoff, and tells of no
/// day without one.
pub proof fn law_calendar_counts_the_days(plays: Seq<RecentView>, cutoff: Seq<char>, day: Seq<char>)
    requires
        plays.len() <= u64::MAX,
    ensures
        ({
            let n = plays.filter(|p: RecentView| is_on_day(p, day, cutoff)).len();
            let told = json::field(
                stats::calendar_record(stats::counted_days(plays, cutoff)),
                day,
            );
            &&& n == 0 ==> told is None
            &&& n > 0 ==> told == Some(JsonView::Int(n as int))
        }),
{
    lemma_days_counted(plays, cutoff, day);
    let days = stats::counted_days(plays, cutoff);
    lemma_calendar_field(days, day);
}

/// How often a list of days with their counts names a day, and what it counts for it.
spec fn count_on(days: Seq<stats::DayCountView>, day: Seq<char>) -> nat
    decreases days.len(),
{
    if days.len() == 0 {
        0
    } else if days.last().day == day {
        days.last().count as nat
    } else {
        count_on(days.drop_last(), day)
    }
}

spec fn names_day(days: Seq<stats::DayCountView>, day: Seq<char>) -> bool {
    exists|i: int| 0 <= i < days.len() && (#[trigger] days[i]).day == day
}

spec fn one_each(days: Seq<stats::DayCountView>) -> bool {
    forall|i: int, j: int|
        #![trigger days[i], days[j]]
        0 <= i < j < days.len() ==> days[i].day != days[j].day
}

proof fn lemma_count_at(days: Seq<stats::DayCountView>, i: int)
    requires
        one_each(days),
        0 <= i < days.len(),
    ensures
        count_on(days, days[i].day) == days[i].count,
    decreases days.len(),
{
    if i < days.len() - 1 {
        assert(days[i].day != days[days.len() - 1].day);
        let front = days.drop_last();
        assert(one_each(front)) by {
            assert forall|a: int, b: int|
                #![trigger front[a], front[b]]
                0 <= a < b < front.len() implies front[a].day != front[b].day by {
                assert(days[a].day != days[b].day);
            }
        }
        assert(front[i] == days[i]);
        lemma_count_at(front, i);
    }
}

proof fn lemma_not_named(days: Seq<stats::DayCountView>, day: Seq<char>)
    requires
        !names_day(days, day),
    ensures
        count_on(days, day) == 0,
    decreases days.len(),
{
    if days.len() > 0 {
        let front = days.drop_last();
        assert(days[days.len() - 1].day != day);
        assert(!names_day(front, day)) by {
            if names_day(front, day) {
                let i = choose|i: int| 0 <= i < front.len() && (#[trigger] front[i]).day == day;
                assert(days[i].day == day);
            }
        }
        lemma_not_named(front, day);
    }
}

proof fn lemma_days_counted(plays: Seq<RecentView>, cutoff: Seq<char>, day: Seq<char>)
    requires
        plays.len() <= u64::MAX,
    ensures
        ({
            let days = stats::counted_days(plays, cutoff);
            let n = plays.filter(|p: RecentView| is_on_day(p, day, cutoff)).len();
            &&& one_each(days)
            &&& count_on(days, day) == n
            &&& names_day(days, day) <==> n > 0
            &&& n <= plays.len()
        }),
    decreases plays.len(),
{
    reveal(Seq::filter);
    if plays.len() > 0 {
        let front = plays.drop_last();
        let p = plays.last();
        let before = stats::counted_days(front, cutoff);
        let days = stats::counted_days(plays, cutoff);
        lemma_days_counted(front, cutoff, day);
        if !text::text_before(p.played_at, cutoff) {
            let d = stats::day_of(p.played_at);
            lemma_days_counted(front, cutoff, d);
            assert(is_on_day(p, day, cutoff) <==> d == day);
            tables::lemma_place::<stats::DayCount>(before, d);
            match tables::place::<stats::DayCount>(before, d) {
                Some(i) => {
                    assert(stats::DayCount::key(before[i]) == d);
                    lemma_count_at(before, i);
                    assert(before[i].count < u64::MAX);
                    assert(one_each(days)) by {
                        assert forall|a: int, b: int|
                            #![trigger days[a], days[b]]
                            0 <= a < b < days.len() implies days[a].day != days[b].day by {
                            assert(before[a].day != before[b].day);
                        }
                    }
                    assert(days[i].day == d);
                    lemma_count_at(days, i);
                    if day != d {
                        if names_day(before, day) {
                            let k = choose|k: int|
                                0 <= k < before.len() && (#[trigger] before[k]).day == day;
                            assert(days[k] == before[k]);
                            lemma_count_at(before, k);
                            lemma_count_at(days, k);
                        } else {
                            assert(!names_day(days, day)) by {
                                if names_day(days, day) {
                                    let k = choose|k: int|
                                        0 <= k < days.len() && (#[trigger] days[k]).day == day;
                                    assert(before[k].day == day);
                                }
                            }
                            lemma_not_named(before, day);
                            lemma_not_named(days, day);
                        }
                    } else {
                        assert(before[i].day == day);
                    }
                },
                None => {
                    let m = before.len() as int;
                    assert(days[m].day == d);
                    assert(one_each(days)) by {
                        assert forall|a: int, b: int|
                            #![trigger days[a], days[b]]
                            0 <= a < b < days.len() implies days[a].day != days[b].day by {
                            assert(days[a] == before[a]);
                            assert(stats::DayCount::key(before[a]) != d);
                            if b < m {
                                assert(before[a].day != before[b].day);
                            }
                        }
                    }
                    assert(!names_day(before, d)) by {
                        if names_day(before, d) {
                            let k = choose|k: int|
                                0 <= k < before.len() && (#[trigger] before[k]).day == d;
                            assert(stats::DayCount::key(before[k]) == d);
                        }
                    }
                    assert(days.drop_last() =~= before);
                    if day != d {
                        if names_day(before, day) {
                            let k = choose|k: int|
                                0 <= k < before.len() && (#[trigger] before[k]).day == day;
                            assert(days[k] == before[k]);
                        }
                        if names_day(days, day) {
                            let k = choose|k: int|
                                0 <= k < days.len() && (#[trigger] days[k]).day == day;
                            assert(before[k].day == day);
                        }
                    }
                },
            }
        }
    }
}

proof fn lemma_calendar_field(days: Seq<stats::DayCountView>, day: Seq<char>)
    ensures
        stats::calendar_record(days) is Record,
        json::field(stats::calendar_record(days), day) == if names_day(days, day) {
            Some(JsonView::Int(count_on(days, day) as int))
        } else {
            None::<JsonView>
        },
    decreases days.len(),
{
    if days.len() > 0 {
        let front = days.drop_last();
        lemma_calendar_field(front, day);
        let n = days.len() - 1;
        assert(days[n] == days.last());
        if names_day(front, day) {
            let k = choose|k: int| 0 <= k < front.len() && (#[trigger] front[k]).day == day;
            assert(days[k].day == day);
        }
        if names_day(days, day) && days.last().day != day {
            let k = choose|k: int| 0 <= k < days.len() && (#[trigger] days[k]).day == day;
            assert(front[k].day == day);
        }
    }
}

proof fn lemma_figures_have_their_names()
    ensures
        "total_shows"@.len() == 11,
        "active_shows"@.len() == 12,
        "finished_shows"@.len() == 14,
        "episodes_total"@.len() == 14,
        "finished_shows"@[0] != "episodes_total"@[0],
        "episodes_watched"@.len() == 16,
        "per_show"@.len() == 8,
        "recent"@.len() == 6,
        "by_day"@.len() == 6,
        "recent"@[0] != "by_day"@[0],
{
    reveal_strlit("total_shows");
    reveal_strlit("active_shows");
    reveal_strlit("finished_shows");
    reveal_strlit("episodes_total");
    reveal_strlit("episodes_watched");
    reveal_strlit("per_show");
    reveal_strlit("recent");
    reveal_strlit("by_day");
}

/// The statistics tell how many shows the playlists have, how many of them are
/// finished and how many are not, how many episodes and how many of those are
/// watched, each under its name. With no playlist they tell nothing.
pub proof fn law_statistics_tell_the_counts(
    v: replica::LibraryView,
    playlists: Seq<Seq<char>>,
    cutoff: Seq<char>,
)
    requires
        v.well_formed(),
        v.episodes.len() <= u64::MAX,
    ensures
        ({
            let told = stats::stats_record(v, playlists, cutoff);
            let listed = v.shows.filter(|r: tables::ShowRowView| playlists.contains(r.playlist));
            let finished = listed.filter(|r: tables::ShowRowView| r.removed_at is Some);
            let episodes = v.episodes.filter(
                |r: tables::EpisodeRowView| is_listed(v, r, playlists),
            );
            let watched = v.episodes.filter(
                |r: tables::EpisodeRowView| r.watched_at is Some && is_listed(v, r, playlists),
            );
            &&& playlists.len() == 0 ==> told == json::empty_record()
            &&& playlists.len() > 0 ==> {
                &&& json::field(told, "total_shows"@) == Some(JsonView::Int(listed.len() as int))
                &&& json::field(told, "finished_shows"@) == Some(
                    JsonView::Int(finished.len() as int),
                )
                &&& json::field(told, "active_shows"@) == Some(
                    JsonView::Int(listed.len() - finished.len()),
                )
                &&& json::field(told, "episodes_total"@) == Some(
                    JsonView::Int(episodes.len() as int),
                )
                &&& json::field(told, "episodes_watched"@) == Some(
                    JsonView::Int(watched.len() as int),
                )
            }
        }),
{
    lemma_figures_have_their_names();
    law_progress_of_every_show(v, v.shows, playlists, 0);
    law_listed_episodes_are_counted(v, v.episodes, playlists);
    law_plays_are_what_was_watched(v, v.episodes, playlists, 0, 0);
    lemma_finished(v, v.shows, playlists);
}

proof fn lemma_finished(
    v: replica::LibraryView,
    rows: Seq<tables::ShowRowView>,
    playlists: Seq<Seq<char>>,
)
    ensures
        stats::removed_count(stats::all_per_show(v, rows, playlists)) == rows.filter(
            |r: tables::ShowRowView| playlists.contains(r.playlist),
        ).filter(|r: tables::ShowRowView| r.removed_at is Some).len(),
    decreases rows.len(),
{
    reveal(Seq::filter);
    let listed = |r: tables::ShowRowView| playlists.contains(r.playlist);
    let gone = |r: tables::ShowRowView| r.removed_at is Some;
    if rows.len() > 0 {
        let front = rows.drop_last();
        lemma_finished(v, front, playlists);
        let before = front.filter(listed);
        if playlists.contains(rows.last().playlist) {
            let after = before.push(rows.last());
            assert(rows.filter(listed) == after);
            assert(after.drop_last() =~= before);
            let told = stats::all_per_show(v, front, playlists);
            assert(stats::all_per_show(v, rows, playlists).drop_last() =~= told);
        }
    } else {
        assert(rows.filter(listed).filter(gone).len() == 0);
    }
}

/// Under their names the statistics tell the shows' progress, the recent plays and
/// the calendar.
pub proof fn law_statistics_tell_the_lists(
    v: replica::LibraryView,
    playlists: Seq<Seq<char>>,
    cutoff: Seq<char>,
)
    requires
        playlists.len() > 0,
    ensures
        ({
            let told = stats::stats_record(v, playlists, cutoff);
            let shows = sorting::in_order::<PerShow>(stats::all_per_show(v, v.shows, playlists));
            let plays = stats::watched_listed(v, v.episodes, playlists);
            &&& json::field(told, "per_show"@) == Some(
                JsonView::List(shows.map_values(|p: PerShowView| stats::per_show_record(p))),
            )
            &&& json::field(told, "recent"@) == Some(
                JsonView::List(
                    stats::most_recent(plays).map_values(|p: RecentView| stats::recent_record(p)),
                ),
            )
            &&& json::field(told, "by_day"@) == Some(
                stats::calendar_record(stats::counted_days(plays, cutoff)),
            )
        }),
{
    lemma_figures_have_their_names();
}

// ── what the origin is given ────────────────────────────────────────────

/// The origin is given every show of the playlists, as its row has it.
pub proof fn law_origin_is_given_the_shows(
    shows: Seq<tables::ShowRowView>,
    episodes: Seq<tables::EpisodeRowView>,
    playlists: Seq<Seq<char>>,
    i: int,
)
    ensures
        ({
            let given = origin::exchanged_shows(shows, episodes, playlists);
            let listed = shows.filter(|r: tables::ShowRowView| playlists.contains(r.playlist));
            &&& given.len() == listed.len()
            &&& 0 <= i < given.len() ==> {
                &&& given[i].id == listed[i].id
                &&& given[i].playlist == listed[i].playlist
                &&& given[i].name == listed[i].name
                &&& given[i].root_path == listed[i].root_path
                &&& given[i].updated_at == listed[i].updated_at
                &&& given[i].date_added == listed[i].date_added
                &&& given[i].removed_at == listed[i].removed_at
                &&& given[i] == origin::exchanged_show(episodes, listed[i])
            }
        }),
    decreases shows.len(),
{
    reveal(Seq::filter);
    if shows.len() > 0 {
        law_origin_is_given_the_shows(shows.drop_last(), episodes, playlists, i);
    }
}

/// With a show the origin is given all its episodes and no others, in ascending order
/// of their positions, each as its row has it.
pub proof fn law_origin_is_given_the_episodes(
    episodes: Seq<tables::EpisodeRowView>,
    show: tables::ShowRowView,
    e: int,
    i: int,
    j: int,
)
    ensures
        ({
            let given = origin::exchanged_show(episodes, show).episodes;
            &&& given.len() == episodes.filter(
                |r: tables::EpisodeRowView| r.show_id == show.id,
            ).len()
            &&& 0 <= i < j < given.len() ==> given[i].position <= given[j].position
            &&& 0 <= e < episodes.len() && episodes[e].show_id == show.id ==> exists|k: int|
                0 <= k < given.len() && is_given_row(#[trigger] given[k], episodes[e])
            &&& 0 <= i < given.len() ==> exists|d: int|
                0 <= d < episodes.len() && (#[trigger] episodes[d]).show_id == show.id
                    && is_given_row(given[i], episodes[d])
        }),
{
    let own = origin::rows_of(episodes, show.id);
    let ordered = sorting::in_order::<EpisodeRow>(own);
    let given = origin::exchanged_show(episodes, show).episodes;
    sorting::lemma_in_order::<EpisodeRow>(own);
    lemma_rows_of(episodes, show.id);
    if 0 <= i < j < given.len() {
        assert(<EpisodeRow as sorting::Sortable>::leq(ordered[i], ordered[j]));
    }
    if 0 <= e < episodes.len() && episodes[e].show_id == show.id {
        lemma_row_is_own(episodes, show.id, e);
        assert(ordered.contains(episodes[e]));
        let k = choose|k: int| 0 <= k < ordered.len() && ordered[k] == episodes[e];
        assert(is_given_row(given[k], episodes[e]));
    }
    if 0 <= i < given.len() {
        assert(ordered.contains(ordered[i]));
        let k = choose|k: int| 0 <= k < own.len() && own[k] == ordered[i];
        let d = lemma_own_is_row(episodes, show.id, k);
        assert(is_given_row(given[i], episodes[d]));
    }
}

/// Whether an episode that is given is what a row holds.
pub open spec fn is_given_row(
    given: model::LibraryEpisodeView,
    row: tables::EpisodeRowView,
) -> bool {
    &&& given.id == row.id
    &&& given.relative_path == row.relative_path
    &&& given.position == row.position
    &&& given.updated_at == row.updated_at
    &&& given.watched_at == row.watched_at
    &&& given.resume_pos == row.resume_pos
}

proof fn lemma_rows_of(rows: Seq<tables::EpisodeRowView>, show_id: Seq<char>)
    ensures
        origin::rows_of(rows, show_id) == rows.filter(
            |r: tables::EpisodeRowView| r.show_id == show_id,
        ),
    decreases rows.len(),
{
    reveal(Seq::filter);
    if rows.len() > 0 {
        lemma_rows_of(rows.drop_last(), show_id);
    }
}

proof fn lemma_row_is_own(rows: Seq<tables::EpisodeRowView>, show_id: Seq<char>, e: int)
    requires
        0 <= e < rows.len(),
        rows[e].show_id == show_id,
    ensures
        origin::rows_of(rows, show_id).contains(rows[e]),
    decreases rows.len(),
{
    let front = rows.drop_last();
    let before = origin::rows_of(front, show_id);
    vstd::seq_lib::lemma_seq_contains_after_push(before, rows.last(), rows[e]);
    if e < front.len() {
        assert(front[e] == rows[e]);
        lemma_row_is_own(front, show_id, e);
    }
}

proof fn lemma_own_is_row(rows: Seq<tables::EpisodeRowView>, show_id: Seq<char>, k: int) -> (e: int)
    requires
        0 <= k < origin::rows_of(rows, show_id).len(),
    ensures
        0 <= e < rows.len(),
        rows[e].show_id == show_id,
        rows[e] == origin::rows_of(rows, show_id)[k],
    decreases rows.len(),
{
    let front = rows.drop_last();
    if k < origin::rows_of(front, show_id).len() {
        let e = lemma_own_is_row(front, show_id, k);
        assert(front[e] == rows[e]);
        e
    } else {
        rows.len() - 1
    }
}

/// Of a playlist's round the origin is given its rows, in the order in which they are
/// played, at a time that no row and no stamp is behind. It is given none if and only
/// if there is neither a row nor a stamp of the playlist.
pub proof fn law_origin_is_given_the_round(
    rows: Seq<tables::QueueRowView>,
    stamps: Seq<tables::QueueStampView>,
    playlist: Seq<char>,
    i: int,
    j: int,
)
    ensures
        ({
            let own = rows.filter(|r: tables::QueueRowView| r.playlist == playlist);
            let stamped = exists|k: int|
                0 <= k < stamps.len() && (#[trigger] stamps[k]).playlist == playlist;
            let given = origin::exchanged_queue(rows, origin::stamp_of(stamps, playlist), playlist);
            let ordered = sorting::in_order::<QueueRow>(own);
            &&& given is None <==> own.len() == 0 && !stamped
            &&& given matches Some(q) ==> {
                &&& q.playlist == playlist
                &&& q.entries.len() == own.len()
                &&& 0 <= i < own.len() ==> is_no_later(ordered[i].updated_at, q.updated_at)
                    && q.entries[i].episode_id == ordered[i].episode_id && q.entries[i].show_id
                    == ordered[i].show_id && q.entries[i].play_order == ordered[i].play_order
                    && q.entries[i].state == ordered[i].state
                &&& 0 <= i < j < own.len() ==> q.entries[i].play_order <= q.entries[j].play_order
            }
            &&& ordered.to_multiset() == own.to_multiset()
        }),
{
    lemma_rows_in(rows, playlist);
    let own = origin::rows_in(rows, playlist);
    let ordered = sorting::in_order::<QueueRow>(own);
    sorting::lemma_in_order::<QueueRow>(own);
    tables::lemma_place::<QueueStamp>(stamps, playlist);
    match tables::place::<QueueStamp>(stamps, playlist) {
        Some(k) => {
            assert(QueueStamp::key(stamps[k]) == playlist);
            assert(stamps[k].playlist == playlist);
        },
        None => {
            if exists|k: int| 0 <= k < stamps.len() && (#[trigger] stamps[k]).playlist == playlist {
                let k = choose|k: int|
                    0 <= k < stamps.len() && (#[trigger] stamps[k]).playlist == playlist;
                assert(QueueStamp::key(stamps[k]) == playlist);
            }
        },
    }
    let given = origin::exchanged_queue(rows, origin::stamp_of(stamps, playlist), playlist);
    if given is Some && 0 <= i < own.len() {
        let since = match origin::stamp_of(stamps, playlist) {
            Some(t) => t,
            None => origin::EPOCH@,
        };
        origin::law_round_time_is_the_latest(ordered, since, i);
        outcomes::lemma_bytes_not_behind(
            encode_utf8(ordered[i].updated_at),
            encode_utf8(given->0.updated_at),
        );
        if i < j < own.len() {
            assert(<QueueRow as sorting::Sortable>::leq(ordered[i], ordered[j]));
        }
    }
}

proof fn lemma_rows_in(rows: Seq<tables::QueueRowView>, playlist: Seq<char>)
    ensures
        origin::rows_in(rows, playlist) == rows.filter(
            |r: tables::QueueRowView| r.playlist == playlist,
        ),
    decreases rows.len(),
{
    reveal(Seq::filter);
    if rows.len() > 0 {
        lemma_rows_in(rows.drop_last(), playlist);
    }
}

} // verus!
