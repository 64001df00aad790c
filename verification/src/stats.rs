//! What the dashboard shows of the library: the active shows, a show's plays, a
//! finished show's farewell, and the statistics.

use serde_json::Value;
use vstd::prelude::*;

use crate::clock;
use crate::engine;
use crate::json;
use crate::json::JsonView;
use crate::library;
use crate::replica;
use crate::replica::Replica;
use crate::sorting;
use crate::sorting::Sortable;
use crate::tables;
use crate::tables::{HistoryEntry, Keyed, ShowRow};
use crate::text;

verus! {

// ── shows and plays ─────────────────────────────────────────────────────

pub open spec fn or_empty(s: Option<Seq<char>>) -> Seq<char> {
    match s {
        Some(t) => t,
        None => Seq::empty(),
    }
}

/// A show as the sidebar lists it.
pub open spec fn sidebar_record(s: engine::ShowView) -> JsonView {
    let r = json::empty_record();
    let r = json::with_field(r, "id"@, JsonView::Text(s.id));
    let r = json::with_field(r, "playlist"@, JsonView::Text(s.playlist));
    let r = json::with_field(r, "name"@, JsonView::Text(s.name));
    let r = json::with_field(r, "root_path"@, JsonView::Text(s.root_path));
    let r = json::with_field(r, "date_added"@, JsonView::Text(or_empty(s.date_added)));
    json::with_field(r, "removed_at"@, json::option_text(s.removed_at))
}

/// The plays of a show, as the table lists them.
pub open spec fn plays_in(rows: Seq<tables::HistoryEntryView>, show_id: Seq<char>) -> Seq<
    tables::HistoryEntryView,
>
    decreases rows.len(),
{
    if rows.len() == 0 {
        rows
    } else if rows.last().show_id == show_id {
        plays_in(rows.drop_last(), show_id).push(rows.last())
    } else {
        plays_in(rows.drop_last(), show_id)
    }
}

impl Sortable for HistoryEntry {
    /// Oldest first.
    open spec fn leq(a: tables::HistoryEntryView, b: tables::HistoryEntryView) -> bool {
        !text::text_before(b.played_at, a.played_at)
    }

    proof fn lemma_total(a: tables::HistoryEntryView, b: tables::HistoryEntryView) {
        text::lemma_text_order(a.played_at, b.played_at);
    }

    proof fn lemma_transitive(
        a: tables::HistoryEntryView,
        b: tables::HistoryEntryView,
        c: tables::HistoryEntryView,
    ) {
        text::lemma_text_order(a.played_at, b.played_at);
        text::lemma_text_order(b.played_at, c.played_at);
        text::lemma_text_order(a.played_at, c.played_at);
        if text::text_before(a.played_at, b.played_at) && text::text_before(
            b.played_at,
            c.played_at,
        ) {
            text::lemma_text_before_transitive(a.played_at, b.played_at, c.played_at);
        }
    }

    fn at_most(&self, other: &Self) -> (r: bool) {
        match text::rank_text(other.played_at.as_str(), self.played_at.as_str()) {
            text::Rank::Below => false,
            _ => true,
        }
    }
}

pub open spec fn play_record(h: tables::HistoryEntryView) -> JsonView {
    let r = json::empty_record();
    let r = json::with_field(r, "episode_id"@, JsonView::Text(h.episode_id));
    let r = json::with_field(r, "relative_path"@, json::option_text(h.relative_path));
    json::with_field(r, "played_at"@, JsonView::Text(h.played_at))
}

/// The latest time at which a show was played.
pub open spec fn last_played(rows: Seq<tables::HistoryEntryView>, show_id: Seq<char>) -> Option<
    Seq<char>,
>
    decreases rows.len(),
{
    if rows.len() == 0 {
        None
    } else {
        let before = last_played(rows.drop_last(), show_id);
        if rows.last().show_id != show_id {
            before
        } else {
            match before {
                Some(t) => if text::text_before(t, rows.last().played_at) {
                    Some(rows.last().played_at)
                } else {
                    before
                },
                None => Some(rows.last().played_at),
            }
        }
    }
}

/// A show that has just been finished.
#[derive(Debug, Clone)]
pub struct RemovedShow {
    pub id: String,
    pub name: String,
    pub date_added: String,
    pub last_played_at: String,
}

#[verifier::ext_equal]
pub struct RemovedShowView {
    pub id: Seq<char>,
    pub name: Seq<char>,
    pub date_added: Seq<char>,
    pub last_played_at: Seq<char>,
}

impl DeepView for RemovedShow {
    type V = RemovedShowView;

    open spec fn deep_view(&self) -> RemovedShowView {
        RemovedShowView {
            id: self.id@,
            name: self.name@,
            date_added: self.date_added@,
            last_played_at: self.last_played_at@,
        }
    }
}

/// What is told of a finished show: its name, when it was added, and when it was
/// last played; empty where the library does not know.
pub open spec fn farewell(v: replica::LibraryView, show_id: Seq<char>) -> RemovedShowView {
    let row = tables::place::<ShowRow>(v.shows, show_id);
    RemovedShowView {
        id: show_id,
        name: match row {
            Some(i) => v.shows[i].name,
            None => Seq::empty(),
        },
        date_added: match row {
            Some(i) => or_empty(v.shows[i].date_added),
            None => Seq::empty(),
        },
        last_played_at: or_empty(last_played(v.history, show_id)),
    }
}

pub open spec fn farewell_record(s: RemovedShowView) -> JsonView {
    let r = json::empty_record();
    let r = json::with_field(r, "id"@, JsonView::Text(s.id));
    let r = json::with_field(r, "name"@, JsonView::Text(s.name));
    let r = json::with_field(r, "date_added"@, JsonView::Text(s.date_added));
    json::with_field(r, "last_played_at"@, JsonView::Text(s.last_played_at))
}

pub fn farewell_json(s: &RemovedShow) -> (r: Value)
    ensures
        json::json_view(r) == farewell_record(s.deep_view()),
{
    let mut r = json::record();
    json::put(&mut r, "id", json::text(s.id.as_str()));
    json::put(&mut r, "name", json::text(s.name.as_str()));
    json::put(&mut r, "date_added", json::text(s.date_added.as_str()));
    json::put(&mut r, "last_played_at", json::text(s.last_played_at.as_str()));
    r
}

fn text_or_empty(s: &Option<String>) -> (r: String)
    ensures
        r@ == or_empty(s.deep_view()),
{
    match s {
        Some(t) => t.clone(),
        None => String::new(),
    }
}

// ── statistics ──────────────────────────────────────────────────────────

/// How far one show has come.
#[derive(Debug, Clone)]
pub struct PerShow {
    pub name: String,
    pub playlist: String,
    pub watched: u64,
    pub total: u64,
    pub removed: bool,
}

#[verifier::ext_equal]
pub struct PerShowView {
    pub name: Seq<char>,
    pub playlist: Seq<char>,
    pub watched: u64,
    pub total: u64,
    pub removed: bool,
}

impl DeepView for PerShow {
    type V = PerShowView;

    open spec fn deep_view(&self) -> PerShowView {
        PerShowView {
            name: self.name@,
            playlist: self.playlist@,
            watched: self.watched,
            total: self.total,
            removed: self.removed,
        }
    }
}

/// The share that is watched is at least the other's. A show without episodes
/// has watched nothing of it.
pub open spec fn share_at_least(a: PerShowView, b: PerShowView) -> bool {
    let (wa, ta): (int, int) = if a.total > 0 {
        (a.watched as int, a.total as int)
    } else {
        (0, 1)
    };
    let (wb, tb): (int, int) = if b.total > 0 {
        (b.watched as int, b.total as int)
    } else {
        (0, 1)
    };
    wa * tb >= wb * ta
}

proof fn lemma_share_transitive(wa: int, ta: int, wb: int, tb: int, wc: int, tc: int)
    requires
        wa * tb >= wb * ta,
        wb * tc >= wc * tb,
        wa >= 0,
        wb >= 0,
        wc >= 0,
        ta > 0,
        tb > 0,
        tc > 0,
    ensures
        wa * tc >= wc * ta,
{
    assert((wa * tb) * tc >= (wb * ta) * tc) by (nonlinear_arith)
        requires
            wa * tb >= wb * ta,
            tc > 0,
    ;
    assert((wb * tc) * ta >= (wc * tb) * ta) by (nonlinear_arith)
        requires
            wb * tc >= wc * tb,
            ta > 0,
    ;
    assert((wb * ta) * tc == (wb * tc) * ta) by (nonlinear_arith);
    assert((wa * tb) * tc == (wa * tc) * tb) by (nonlinear_arith);
    assert((wc * tb) * ta == (wc * ta) * tb) by (nonlinear_arith);
    assert(wa * tc >= wc * ta) by (nonlinear_arith)
        requires
            (wa * tc) * tb >= (wc * ta) * tb,
            tb > 0,
    ;
}

impl Sortable for PerShow {
    /// The furthest watched first.
    open spec fn leq(a: PerShowView, b: PerShowView) -> bool {
        share_at_least(a, b)
    }

    proof fn lemma_total(a: PerShowView, b: PerShowView) {
    }

    proof fn lemma_transitive(a: PerShowView, b: PerShowView, c: PerShowView) {
        let (wa, ta): (int, int) = if a.total > 0 {
            (a.watched as int, a.total as int)
        } else {
            (0, 1)
        };
        let (wb, tb): (int, int) = if b.total > 0 {
            (b.watched as int, b.total as int)
        } else {
            (0, 1)
        };
        let (wc, tc): (int, int) = if c.total > 0 {
            (c.watched as int, c.total as int)
        } else {
            (0, 1)
        };
        lemma_share_transitive(wa, ta, wb, tb, wc, tc);
    }

    fn at_most(&self, other: &Self) -> (r: bool) {
        let (wa, ta): (u64, u64) = if self.total > 0 {
            (self.watched, self.total)
        } else {
            (0, 1)
        };
        let (wb, tb): (u64, u64) = if other.total > 0 {
            (other.watched, other.total)
        } else {
            (0, 1)
        };
        proof {
            assert(0 <= wa * tb <= 0xffff_ffff_ffff_ffff * 0xffff_ffff_ffff_ffff)
                by (nonlinear_arith)
                requires
                    0 <= wa <= 0xffff_ffff_ffff_ffff,
                    0 <= tb <= 0xffff_ffff_ffff_ffff,
            ;
            assert(0 <= wb * ta <= 0xffff_ffff_ffff_ffff * 0xffff_ffff_ffff_ffff)
                by (nonlinear_arith)
                requires
                    0 <= wb <= 0xffff_ffff_ffff_ffff,
                    0 <= ta <= 0xffff_ffff_ffff_ffff,
            ;
        }
        wa as u128 * tb as u128 >= wb as u128 * ta as u128
    }
}

/// How many episodes of the show are watched.
pub open spec fn watched_count(rows: Seq<tables::EpisodeRowView>, show_id: Seq<char>) -> nat
    decreases rows.len(),
{
    if rows.len() == 0 {
        0
    } else {
        watched_count(rows.drop_last(), show_id) + if rows.last().show_id == show_id
            && rows.last().watched_at is Some {
            1nat
        } else {
            0nat
        }
    }
}

pub open spec fn per_show(v: replica::LibraryView, row: tables::ShowRowView) -> PerShowView {
    PerShowView {
        name: row.name,
        playlist: row.playlist,
        watched: watched_count(v.episodes, row.id) as u64,
        total: library::episode_count(v.episodes, row.id) as u64,
        removed: row.removed_at is Some,
    }
}

/// The progress of every show of the playlists, retired ones too.
pub open spec fn all_per_show(
    v: replica::LibraryView,
    rows: Seq<tables::ShowRowView>,
    playlists: Seq<Seq<char>>,
) -> Seq<PerShowView>
    decreases rows.len(),
{
    if rows.len() == 0 {
        Seq::empty()
    } else if playlists.contains(rows.last().playlist) {
        all_per_show(v, rows.drop_last(), playlists).push(per_show(v, rows.last()))
    } else {
        all_per_show(v, rows.drop_last(), playlists)
    }
}

pub open spec fn removed_count(shows: Seq<PerShowView>) -> nat
    decreases shows.len(),
{
    if shows.len() == 0 {
        0
    } else {
        removed_count(shows.drop_last()) + if shows.last().removed {
            1nat
        } else {
            0nat
        }
    }
}

/// The name of the episode's show, where that show is in the playlists.
pub open spec fn listed_show(
    v: replica::LibraryView,
    show_id: Seq<char>,
    playlists: Seq<Seq<char>>,
) -> Option<Seq<char>> {
    match tables::place::<ShowRow>(v.shows, show_id) {
        Some(i) => if playlists.contains(v.shows[i].playlist) {
            Some(v.shows[i].name)
        } else {
            None
        },
        None => None,
    }
}

/// How many episodes the shows of the playlists have.
pub open spec fn listed_episodes(
    v: replica::LibraryView,
    rows: Seq<tables::EpisodeRowView>,
    playlists: Seq<Seq<char>>,
) -> nat
    decreases rows.len(),
{
    if rows.len() == 0 {
        0
    } else {
        listed_episodes(v, rows.drop_last(), playlists) + if listed_show(
            v,
            rows.last().show_id,
            playlists,
        ) is Some {
            1nat
        } else {
            0nat
        }
    }
}

/// A play as the recent list tells it.
#[derive(Debug, Clone)]
pub struct Recent {
    pub show: String,
    pub relative_path: String,
    pub played_at: String,
}

#[verifier::ext_equal]
pub struct RecentView {
    pub show: Seq<char>,
    pub relative_path: Seq<char>,
    pub played_at: Seq<char>,
}

impl DeepView for Recent {
    type V = RecentView;

    open spec fn deep_view(&self) -> RecentView {
        RecentView {
            show: self.show@,
            relative_path: self.relative_path@,
            played_at: self.played_at@,
        }
    }
}

impl Sortable for Recent {
    /// Newest first.
    open spec fn leq(a: RecentView, b: RecentView) -> bool {
        !text::text_before(a.played_at, b.played_at)
    }

    proof fn lemma_total(a: RecentView, b: RecentView) {
        text::lemma_text_order(a.played_at, b.played_at);
    }

    proof fn lemma_transitive(a: RecentView, b: RecentView, c: RecentView) {
        text::lemma_text_order(c.played_at, b.played_at);
        text::lemma_text_order(b.played_at, a.played_at);
        text::lemma_text_order(c.played_at, a.played_at);
        if text::text_before(c.played_at, b.played_at) && text::text_before(
            b.played_at,
            a.played_at,
        ) {
            text::lemma_text_before_transitive(c.played_at, b.played_at, a.played_at);
        }
    }

    fn at_most(&self, other: &Self) -> (r: bool) {
        match text::rank_text(self.played_at.as_str(), other.played_at.as_str()) {
            text::Rank::Below => false,
            _ => true,
        }
    }
}

/// The watched episodes of the playlists' shows, as the table lists them.
pub open spec fn watched_listed(
    v: replica::LibraryView,
    rows: Seq<tables::EpisodeRowView>,
    playlists: Seq<Seq<char>>,
) -> Seq<RecentView>
    decreases rows.len(),
{
    if rows.len() == 0 {
        Seq::empty()
    } else {
        let before = watched_listed(v, rows.drop_last(), playlists);
        match (rows.last().watched_at, listed_show(v, rows.last().show_id, playlists)) {
            (Some(t), Some(name)) => before.push(
                RecentView { show: name, relative_path: rows.last().relative_path, played_at: t },
            ),
            _ => before,
        }
    }
}

/// How many plays the recent list holds at most.
pub const RECENT_LIMIT: usize = 25;

/// How many days back the calendar reaches.
pub const CALENDAR_DAYS: u16 = 140;

pub open spec fn most_recent(plays: Seq<RecentView>) -> Seq<RecentView> {
    let ordered = sorting::in_order::<Recent>(plays);
    if ordered.len() > RECENT_LIMIT {
        ordered.take(RECENT_LIMIT as int)
    } else {
        ordered
    }
}

/// How many episodes were watched on a day.
#[derive(Debug, Clone)]
pub struct DayCount {
    pub day: String,
    pub count: u64,
}

#[verifier::ext_equal]
pub struct DayCountView {
    pub day: Seq<char>,
    pub count: u64,
}

impl DeepView for DayCount {
    type V = DayCountView;

    open spec fn deep_view(&self) -> DayCountView {
        DayCountView { day: self.day@, count: self.count }
    }
}

impl Keyed for DayCount {
    open spec fn key(v: DayCountView) -> Seq<char> {
        v.day
    }

    fn has_key(&self, key: &str) -> (r: bool) {
        text::same_text(self.day.as_str(), key)
    }
}

/// The date of a time: its first ten characters.
pub open spec fn day_of(time: Seq<char>) -> Seq<char> {
    if time.len() > 10 {
        time.take(10)
    } else {
        time
    }
}

pub open spec fn day_counted(days: Seq<DayCountView>, day: Seq<char>) -> Seq<DayCountView> {
    match tables::place::<DayCount>(days, day) {
        Some(i) => days.update(i, DayCountView { day, count: (days[i].count + 1) as u64 }),
        None => days.push(DayCountView { day, count: 1 }),
    }
}

/// The plays since the cutoff, counted by day.
pub open spec fn counted_days(plays: Seq<RecentView>, cutoff: Seq<char>) -> Seq<DayCountView>
    decreases plays.len(),
{
    if plays.len() == 0 {
        Seq::empty()
    } else {
        let before = counted_days(plays.drop_last(), cutoff);
        if text::text_before(plays.last().played_at, cutoff) {
            before
        } else {
            day_counted(before, day_of(plays.last().played_at))
        }
    }
}

pub open spec fn per_show_record(p: PerShowView) -> JsonView {
    let r = json::empty_record();
    let r = json::with_field(r, "name"@, JsonView::Text(p.name));
    let r = json::with_field(r, "playlist"@, JsonView::Text(p.playlist));
    let r = json::with_field(r, "watched"@, JsonView::Int(p.watched as int));
    let r = json::with_field(r, "total"@, JsonView::Int(p.total as int));
    json::with_field(r, "removed"@, JsonView::Bool(p.removed))
}

pub open spec fn recent_record(p: RecentView) -> JsonView {
    let r = json::empty_record();
    let r = json::with_field(r, "show"@, JsonView::Text(p.show));
    let r = json::with_field(r, "relative_path"@, JsonView::Text(p.relative_path));
    json::with_field(r, "played_at"@, JsonView::Text(p.played_at))
}

pub open spec fn calendar_record(days: Seq<DayCountView>) -> JsonView
    decreases days.len(),
{
    if days.len() == 0 {
        json::empty_record()
    } else {
        json::with_field(
            calendar_record(days.drop_last()),
            days.last().day,
            JsonView::Int(days.last().count as int),
        )
    }
}

pub open spec fn stats_record(
    v: replica::LibraryView,
    playlists: Seq<Seq<char>>,
    cutoff: Seq<char>,
) -> JsonView {
    if playlists.len() == 0 {
        json::empty_record()
    } else {
        let per = all_per_show(v, v.shows, playlists);
        let plays = watched_listed(v, v.episodes, playlists);
        let finished = removed_count(per);
        let r = json::empty_record();
        let r = json::with_field(r, "total_shows"@, JsonView::Int(per.len() as int));
        let r = json::with_field(r, "active_shows"@, JsonView::Int(per.len() - finished));
        let r = json::with_field(r, "finished_shows"@, JsonView::Int(finished as int));
        let r = json::with_field(
            r,
            "episodes_total"@,
            JsonView::Int(listed_episodes(v, v.episodes, playlists) as int),
        );
        let r = json::with_field(r, "episodes_watched"@, JsonView::Int(plays.len() as int));
        let r = json::with_field(
            r,
            "per_show"@,
            JsonView::List(
                sorting::in_order::<PerShow>(per).map_values(|p: PerShowView| per_show_record(p)),
            ),
        );
        let r = json::with_field(
            r,
            "recent"@,
            JsonView::List(most_recent(plays).map_values(|p: RecentView| recent_record(p))),
        );
        json::with_field(r, "by_day"@, calendar_record(counted_days(plays, cutoff)))
    }
}

fn per_show_json(p: &PerShow) -> (r: Value)
    ensures
        json::json_view(r) == per_show_record(p.deep_view()),
{
    let mut r = json::record();
    json::put(&mut r, "name", json::text(p.name.as_str()));
    json::put(&mut r, "playlist", json::text(p.playlist.as_str()));
    json::put(&mut r, "watched", json::natural(p.watched));
    json::put(&mut r, "total", json::natural(p.total));
    json::put(&mut r, "removed", json::boolean(p.removed));
    r
}

fn recent_json(p: &Recent) -> (r: Value)
    ensures
        json::json_view(r) == recent_record(p.deep_view()),
{
    let mut r = json::record();
    json::put(&mut r, "show", json::text(p.show.as_str()));
    json::put(&mut r, "relative_path", json::text(p.relative_path.as_str()));
    json::put(&mut r, "played_at", json::text(p.played_at.as_str()));
    r
}

fn per_show_list(per: &Vec<PerShow>) -> (r: Value)
    ensures
        json::json_view(r) == JsonView::List(
            per.deep_view().map_values(|p: PerShowView| per_show_record(p)),
        ),
{
    let ghost want = per.deep_view().map_values(|p: PerShowView| per_show_record(p));
    let mut out: Vec<Value> = Vec::new();
    let mut i: usize = 0;
    while i < per.len()
        invariant
            i <= per@.len(),
            want == per.deep_view().map_values(|p: PerShowView| per_show_record(p)),
            json::views(out@) =~= want.take(i as int),
        decreases per.len() - i,
    {
        let ghost before = out@;
        let x = per_show_json(&per[i]);
        out.push(x);
        assert(json::views(out@) =~= json::views(before).push(json::json_view(x)));
        i = i + 1;
    }
    assert(want.take(i as int) =~= want);
    json::list(out)
}

fn recent_list(plays: &Vec<Recent>) -> (r: Value)
    ensures
        json::json_view(r) == JsonView::List(
            (if plays.deep_view().len() > RECENT_LIMIT {
                plays.deep_view().take(RECENT_LIMIT as int)
            } else {
                plays.deep_view()
            }).map_values(|p: RecentView| recent_record(p)),
        ),
{
    let count: usize = if plays.len() > RECENT_LIMIT {
        RECENT_LIMIT
    } else {
        plays.len()
    };
    let ghost some = if plays.deep_view().len() > RECENT_LIMIT {
        plays.deep_view().take(RECENT_LIMIT as int)
    } else {
        plays.deep_view()
    };
    let ghost want = some.map_values(|p: RecentView| recent_record(p));
    let mut out: Vec<Value> = Vec::new();
    let mut i: usize = 0;
    while i < count
        invariant
            i <= count <= plays@.len(),
            count == some.len(),
            forall|j: int| 0 <= j < count ==> some[j] == #[trigger] plays@[j].deep_view(),
            want == some.map_values(|p: RecentView| recent_record(p)),
            json::views(out@) =~= want.take(i as int),
        decreases count - i,
    {
        let ghost before = out@;
        let x = recent_json(&plays[i]);
        out.push(x);
        proof {
            assert(some[i as int] == plays@[i as int].deep_view());
            assert(json::views(out@) =~= json::views(before).push(json::json_view(x)));
        }
        i = i + 1;
    }
    assert(want.take(i as int) =~= want);
    json::list(out)
}

fn calendar(plays: &Vec<Recent>, cutoff: &str) -> (r: Value)
    ensures
        json::json_view(r) == calendar_record(counted_days(plays.deep_view(), cutoff@)),
{
    let ghost pv = plays.deep_view();
    let mut days: Vec<DayCount> = Vec::new();
    let mut i: usize = 0;
    assert(days.deep_view() =~= counted_days(pv.take(0), cutoff@));
    while i < plays.len()
        invariant
            i <= plays@.len(),
            pv == plays.deep_view(),
            days.deep_view() == counted_days(pv.take(i as int), cutoff@),
            forall|j: int| 0 <= j < days@.len() ==> (#[trigger] days@[j]).count <= i,
        decreases plays.len() - i,
    {
        let p = &plays[i];
        proof {
            assert(pv[i as int] == p.deep_view());
            assert(pv.take(i + 1).drop_last() =~= pv.take(i as int));
        }
        let before = match text::rank_text(p.played_at.as_str(), cutoff) {
            text::Rank::Below => true,
            _ => false,
        };
        if !before {
            let chars = text::chars_of(p.played_at.as_str());
            let end: usize = if chars.len() > 10 {
                10
            } else {
                chars.len()
            };
            let day = text::text_between(&chars, 0, end);
            proof {
                assert(chars@.subrange(0, end as int) =~= day_of(p.played_at@));
            }
            let ghost had = days.deep_view();
            match tables::find(&days, day.as_str()) {
                Some(k) => {
                    assert(had[k as int] == days@[k as int].deep_view());
                    let n: u64 = days[k].count;
                    days[k] = DayCount { day, count: n + 1 };
                    assert(days.deep_view() =~= day_counted(had, day_of(p.played_at@)));
                },
                None => {
                    days.push(DayCount { day, count: 1 });
                    assert(days.deep_view() =~= day_counted(had, day_of(p.played_at@)));
                },
            }
        }
        i = i + 1;
    }
    assert(pv.take(i as int) =~= pv);
    let ghost dv = days.deep_view();
    let mut out = json::record();
    let mut k: usize = 0;
    assert(json::json_view(out) == calendar_record(dv.take(0)));
    while k < days.len()
        invariant
            k <= days@.len(),
            dv == days.deep_view(),
            json::json_view(out) == calendar_record(dv.take(k as int)),
        decreases days.len() - k,
    {
        proof {
            assert(dv[k as int] == days@[k as int].deep_view());
            assert(dv.take(k + 1).drop_last() =~= dv.take(k as int));
        }
        json::put(&mut out, days[k].day.as_str(), json::natural(days[k].count));
        k = k + 1;
    }
    assert(dv.take(k as int) =~= dv);
    out
}

impl Replica {
    /// The active shows of the playlists, for the sidebar.
    pub fn overlay_shows(&self, playlists: &[String]) -> (r: Vec<Value>)
        ensures
            json::views(r@) == replica::active_among(
                self.deep_view(),
                self.deep_view().shows,
                playlists.deep_view(),
            ).map_values(|s: engine::ShowView| sidebar_record(s)),
    {
        let shows = self.active_shows(playlists);
        let ghost want = shows.deep_view().map_values(|s: engine::ShowView| sidebar_record(s));
        let mut out: Vec<Value> = Vec::new();
        let mut i: usize = 0;
        while i < shows.len()
            invariant
                i <= shows@.len(),
                want == shows.deep_view().map_values(|s: engine::ShowView| sidebar_record(s)),
                json::views(out@) =~= want.take(i as int),
            decreases shows.len() - i,
        {
            let s = &shows[i];
            let date_added = text_or_empty(&s.date_added);
            let mut x = json::record();
            json::put(&mut x, "id", json::text(s.id.as_str()));
            json::put(&mut x, "playlist", json::text(s.playlist.as_str()));
            json::put(&mut x, "name", json::text(s.name.as_str()));
            json::put(&mut x, "root_path", json::text(s.root_path.as_str()));
            json::put(&mut x, "date_added", json::text(date_added.as_str()));
            json::put(&mut x, "removed_at", json::maybe_text(&s.removed_at));
            let ghost before = out@;
            out.push(x);
            proof {
                assert(shows.deep_view()[i as int] == s.deep_view());
                assert(json::views(out@) =~= json::views(before).push(json::json_view(x)));
            }
            i = i + 1;
        }
        assert(want.take(i as int) =~= want);
        out
    }

    /// The plays of a show, oldest first.
    pub fn show_history(&self, show_id: &str) -> (r: Vec<Value>)
        ensures
            json::views(r@) == sorting::in_order::<HistoryEntry>(
                plays_in(self.deep_view().history, show_id@),
            ).map_values(|h: tables::HistoryEntryView| play_record(h)),
    {
        let ghost rows = self.history.deep_view();
        let mut plays: Vec<HistoryEntry> = Vec::new();
        let mut i: usize = 0;
        assert(plays.deep_view() =~= plays_in(rows.take(0), show_id@));
        while i < self.history.len()
            invariant
                i <= self.history@.len(),
                rows == self.history.deep_view(),
                plays.deep_view() == plays_in(rows.take(i as int), show_id@),
            decreases self.history.len() - i,
        {
            let h = &self.history[i];
            proof {
                assert(rows[i as int] == h.deep_view());
                assert(rows.take(i + 1).drop_last() =~= rows.take(i as int));
            }
            if text::same_text(h.show_id.as_str(), show_id) {
                let ghost before = plays.deep_view();
                let row = HistoryEntry {
                    id: h.id.clone(),
                    show_id: h.show_id.clone(),
                    episode_id: h.episode_id.clone(),
                    relative_path: h.relative_path.clone(),
                    played_at: h.played_at.clone(),
                };
                plays.push(row);
                assert(plays.deep_view() =~= before.push(row.deep_view()));
            }
            i = i + 1;
        }
        assert(rows.take(i as int) =~= rows);
        let ordered = sorting::stable_sort(plays);
        let ghost want = ordered.deep_view().map_values(
            |h: tables::HistoryEntryView| play_record(h),
        );
        let mut out: Vec<Value> = Vec::new();
        let mut k: usize = 0;
        while k < ordered.len()
            invariant
                k <= ordered@.len(),
                want == ordered.deep_view().map_values(
                    |h: tables::HistoryEntryView| play_record(h),
                ),
                json::views(out@) =~= want.take(k as int),
            decreases ordered.len() - k,
        {
            let h = &ordered[k];
            let mut x = json::record();
            json::put(&mut x, "episode_id", json::text(h.episode_id.as_str()));
            json::put(&mut x, "relative_path", json::maybe_text(&h.relative_path));
            json::put(&mut x, "played_at", json::text(h.played_at.as_str()));
            let ghost before = out@;
            out.push(x);
            proof {
                assert(ordered.deep_view()[k as int] == h.deep_view());
                assert(json::views(out@) =~= json::views(before).push(json::json_view(x)));
            }
            k = k + 1;
        }
        assert(want.take(k as int) =~= want);
        out
    }

    fn last_play(&self, show_id: &str) -> (r: Option<String>)
        ensures
            r.deep_view() == last_played(self.deep_view().history, show_id@),
    {
        let ghost rows = self.history.deep_view();
        let mut last: Option<String> = None;
        let mut i: usize = 0;
        while i < self.history.len()
            invariant
                i <= self.history@.len(),
                rows == self.history.deep_view(),
                last.deep_view() == last_played(rows.take(i as int), show_id@),
            decreases self.history.len() - i,
        {
            let h = &self.history[i];
            proof {
                assert(rows[i as int] == h.deep_view());
                assert(rows.take(i + 1).drop_last() =~= rows.take(i as int));
            }
            if text::same_text(h.show_id.as_str(), show_id) {
                let later = match &last {
                    Some(t) => match text::rank_text(t.as_str(), h.played_at.as_str()) {
                        text::Rank::Below => true,
                        _ => false,
                    },
                    None => true,
                };
                if later {
                    last = Some(h.played_at.clone());
                }
            }
            i = i + 1;
        }
        assert(rows.take(i as int) =~= rows);
        last
    }

    /// What is told of a finished show.
    pub fn removed_show(&self, show_id: &str) -> (r: RemovedShow)
        ensures
            r.deep_view() == farewell(self.deep_view(), show_id@),
    {
        let last = self.last_play(show_id);
        let last_played_at = text_or_empty(&last);
        match tables::find(&self.shows, show_id) {
            Some(i) => {
                assert(self.deep_view().shows[i as int] == self.shows@[i as int].deep_view());
                RemovedShow {
                    id: show_id.to_owned(),
                    name: self.shows[i].name.clone(),
                    date_added: text_or_empty(&self.shows[i].date_added),
                    last_played_at,
                }
            },
            None => RemovedShow {
                id: show_id.to_owned(),
                name: String::new(),
                date_added: String::new(),
                last_played_at,
            },
        }
    }

    /// What is told of a finished show, for the overlay.
    pub fn reveal_show(&self, show_id: &str) -> (r: Value)
        ensures
            json::json_view(r) == farewell_record(farewell(self.deep_view(), show_id@)),
    {
        let s = self.removed_show(show_id);
        farewell_json(&s)
    }

    fn progress_of(&self, row: &ShowRow) -> (r: PerShow)
        ensures
            r.deep_view() == per_show(self.deep_view(), row.deep_view()),
    {
        let ghost rows = self.episodes.deep_view();
        let mut total: u64 = 0;
        let mut watched: u64 = 0;
        let mut i: usize = 0;
        while i < self.episodes.len()
            invariant
                i <= self.episodes@.len(),
                rows == self.episodes.deep_view(),
                watched <= total <= i,
                total == library::episode_count(rows.take(i as int), row.id@),
                watched == watched_count(rows.take(i as int), row.id@),
            decreases self.episodes.len() - i,
        {
            let e = &self.episodes[i];
            proof {
                assert(rows[i as int] == e.deep_view());
                assert(rows.take(i + 1).drop_last() =~= rows.take(i as int));
            }
            if e.show_id == row.id {
                total = total + 1;
                if e.watched_at.is_some() {
                    watched = watched + 1;
                }
            }
            i = i + 1;
        }
        assert(rows.take(i as int) =~= rows);
        PerShow {
            name: row.name.clone(),
            playlist: row.playlist.clone(),
            watched,
            total,
            removed: row.removed_at.is_some(),
        }
    }

    fn listed_name(&self, show_id: &str, playlists: &[String]) -> (r: Option<String>)
        ensures
            r.deep_view() == listed_show(self.deep_view(), show_id@, playlists.deep_view()),
    {
        match tables::find(&self.shows, show_id) {
            Some(i) => {
                assert(self.deep_view().shows[i as int] == self.shows@[i as int].deep_view());
                if text::is_among(self.shows[i].playlist.as_str(), playlists) {
                    Some(self.shows[i].name.clone())
                } else {
                    None
                }
            },
            None => None,
        }
    }

    /// The statistics of the playlists: totals, the progress of every show, the
    /// most recent plays, and the plays per day since the cutoff.
    pub fn stats_at(&self, playlists: &[String], cutoff: &str) -> (r: Value)
        ensures
            json::json_view(r) == stats_record(self.deep_view(), playlists.deep_view(), cutoff@),
    {
        if playlists.len() == 0 {
            return json::record();
        }
        let ghost v = self.deep_view();
        let ghost pl = playlists.deep_view();
        let mut per: Vec<PerShow> = Vec::new();
        let mut finished: u64 = 0;
        let mut i: usize = 0;
        assert(per.deep_view() =~= all_per_show(v, v.shows.take(0), pl));
        while i < self.shows.len()
            invariant
                i <= self.shows@.len(),
                v == self.deep_view(),
                pl == playlists.deep_view(),
                per@.len() <= i,
                finished <= per@.len(),
                per.deep_view() == all_per_show(v, v.shows.take(i as int), pl),
                finished == removed_count(per.deep_view()),
            decreases self.shows.len() - i,
        {
            let row = &self.shows[i];
            proof {
                assert(v.shows[i as int] == row.deep_view());
                assert(v.shows.take(i + 1).drop_last() =~= v.shows.take(i as int));
            }
            if text::is_among(row.playlist.as_str(), playlists) {
                let ghost before = per.deep_view();
                let p = self.progress_of(row);
                let gone = p.removed;
                per.push(p);
                proof {
                    assert(per.deep_view() =~= before.push(p.deep_view()));
                    assert(per.deep_view().drop_last() =~= before);
                }
                if gone {
                    finished = finished + 1;
                }
            }
            i = i + 1;
        }
        assert(v.shows.take(i as int) =~= v.shows);
        let mut plays: Vec<Recent> = Vec::new();
        let mut episodes: u64 = 0;
        let mut k: usize = 0;
        assert(plays.deep_view() =~= watched_listed(v, v.episodes.take(0), pl));
        while k < self.episodes.len()
            invariant
                k <= self.episodes@.len(),
                v == self.deep_view(),
                pl == playlists.deep_view(),
                episodes <= k,
                plays@.len() <= k,
                plays.deep_view() == watched_listed(v, v.episodes.take(k as int), pl),
                episodes == listed_episodes(v, v.episodes.take(k as int), pl),
            decreases self.episodes.len() - k,
        {
            let e = &self.episodes[k];
            proof {
                assert(v.episodes[k as int] == e.deep_view());
                assert(v.episodes.take(k + 1).drop_last() =~= v.episodes.take(k as int));
            }
            match self.listed_name(e.show_id.as_str(), playlists) {
                Some(name) => {
                    episodes = episodes + 1;
                    match &e.watched_at {
                        Some(t) => {
                            let ghost before = plays.deep_view();
                            let row = Recent {
                                show: name,
                                relative_path: e.relative_path.clone(),
                                played_at: t.clone(),
                            };
                            plays.push(row);
                            assert(plays.deep_view() =~= before.push(row.deep_view()));
                        },
                        None => {},
                    }
                },
                None => {},
            }
            k = k + 1;
        }
        assert(v.episodes.take(k as int) =~= v.episodes);
        let by_day = calendar(&plays, cutoff);
        let total: u64 = per.len() as u64;
        let watched: u64 = plays.len() as u64;
        let ordered = sorting::stable_sort(per);
        let newest = sorting::stable_sort(plays);
        let mut r = json::record();
        json::put(&mut r, "total_shows", json::natural(total));
        json::put(&mut r, "active_shows", json::natural(total - finished));
        json::put(&mut r, "finished_shows", json::natural(finished));
        json::put(&mut r, "episodes_total", json::natural(episodes));
        json::put(&mut r, "episodes_watched", json::natural(watched));
        json::put(&mut r, "per_show", per_show_list(&ordered));
        json::put(&mut r, "recent", recent_list(&newest));
        json::put(&mut r, "by_day", by_day);
        r
    }

    /// The statistics of the playlists, the calendar reaching back from now.
    pub fn stats(&self, playlists: &[String]) -> (r: Value)
        ensures
            exists|cutoff: Seq<char>|
                json::json_view(r) == #[trigger] stats_record(
                    self.deep_view(),
                    playlists.deep_view(),
                    cutoff,
                ),
    {
        let cutoff = clock::days_ago(CALENDAR_DAYS);
        self.stats_at(playlists, cutoff.as_str())
    }
}

} // verus!
