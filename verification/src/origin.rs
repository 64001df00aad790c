//! What the origin's tables hold for some playlists: their shows with all
//! episodes, and their rounds.

use vstd::prelude::*;

use crate::model;
use crate::model::{LibraryEpisode, LibraryQueue, LibraryShow, RoundQueueEntry};
use crate::replica::Replica;
use crate::sorting;
use crate::sorting::Sortable;
use crate::tables;
use crate::tables::{EpisodeRow, QueueRow, QueueStamp, ShowRow};
use crate::text;
use crate::text::Rank;

verus! {

/// When a round changed of which no time is known.
pub const EPOCH: &'static str = "1970-01-01T00:00:00Z";

impl Sortable for EpisodeRow {
    /// By position in the show's queue.
    open spec fn leq(a: tables::EpisodeRowView, b: tables::EpisodeRowView) -> bool {
        a.position <= b.position
    }

    proof fn lemma_total(a: tables::EpisodeRowView, b: tables::EpisodeRowView) {
    }

    proof fn lemma_transitive(
        a: tables::EpisodeRowView,
        b: tables::EpisodeRowView,
        c: tables::EpisodeRowView,
    ) {
    }

    fn at_most(&self, other: &Self) -> (r: bool) {
        self.position <= other.position
    }
}

// ── shows ───────────────────────────────────────────────────────────────

/// The rows of a show's episodes as the table lists them.
pub open spec fn rows_of(rows: Seq<tables::EpisodeRowView>, show_id: Seq<char>) -> Seq<
    tables::EpisodeRowView,
>
    decreases rows.len(),
{
    if rows.len() == 0 {
        Seq::empty()
    } else if rows.last().show_id == show_id {
        rows_of(rows.drop_last(), show_id).push(rows.last())
    } else {
        rows_of(rows.drop_last(), show_id)
    }
}

pub open spec fn exchanged_episode(r: tables::EpisodeRowView) -> model::LibraryEpisodeView {
    model::LibraryEpisodeView {
        id: r.id,
        relative_path: r.relative_path,
        position: r.position,
        updated_at: r.updated_at,
        watched_at: r.watched_at,
        resume_pos: r.resume_pos,
    }
}

/// The show of a row, with its episodes in the order of their positions.
pub open spec fn exchanged_show(
    episodes: Seq<tables::EpisodeRowView>,
    r: tables::ShowRowView,
) -> model::LibraryShowView {
    let own = sorting::in_order::<EpisodeRow>(rows_of(episodes, r.id));
    model::LibraryShowView {
        id: r.id,
        playlist: r.playlist,
        name: r.name,
        root_path: r.root_path,
        updated_at: r.updated_at,
        date_added: r.date_added,
        removed_at: r.removed_at,
        episodes: Seq::new(own.len(), |i: int| exchanged_episode(own[i])),
    }
}

/// The shows of some playlists, the retired ones among them.
pub open spec fn exchanged_shows(
    shows: Seq<tables::ShowRowView>,
    episodes: Seq<tables::EpisodeRowView>,
    playlists: Seq<Seq<char>>,
) -> Seq<model::LibraryShowView>
    decreases shows.len(),
{
    if shows.len() == 0 {
        Seq::empty()
    } else {
        let before = exchanged_shows(shows.drop_last(), episodes, playlists);
        if playlists.contains(shows.last().playlist) {
            before.push(exchanged_show(episodes, shows.last()))
        } else {
            before
        }
    }
}

fn copy_row(r: &EpisodeRow) -> (c: EpisodeRow)
    ensures
        c.deep_view() == r.deep_view(),
{
    EpisodeRow {
        id: r.id.clone(),
        show_id: r.show_id.clone(),
        relative_path: r.relative_path.clone(),
        position: r.position,
        watched_at: r.watched_at.clone(),
        resume_pos: r.resume_pos,
        updated_at: r.updated_at.clone(),
    }
}

fn own_rows(rows: &Vec<EpisodeRow>, show_id: &str) -> (r: Vec<EpisodeRow>)
    ensures
        r.deep_view() == rows_of(rows.deep_view(), show_id@),
{
    let ghost views = rows.deep_view();
    let mut out: Vec<EpisodeRow> = Vec::new();
    let mut i: usize = 0;
    assert(out.deep_view() =~= rows_of(views.take(0), show_id@));
    while i < rows.len()
        invariant
            i <= rows@.len(),
            views == rows.deep_view(),
            out.deep_view() == rows_of(views.take(i as int), show_id@),
        decreases rows.len() - i,
    {
        proof {
            assert(views[i as int] == rows@[i as int].deep_view());
            assert(views.take(i + 1).drop_last() =~= views.take(i as int));
        }
        if text::same_text(rows[i].show_id.as_str(), show_id) {
            let ghost before = out.deep_view();
            let row = copy_row(&rows[i]);
            out.push(row);
            assert(out.deep_view() =~= before.push(views[i as int]));
        }
        i = i + 1;
    }
    assert(views.take(i as int) =~= views);
    out
}

fn show_to_exchange(episodes: &Vec<EpisodeRow>, r: &ShowRow) -> (s: LibraryShow)
    ensures
        s.deep_view() == exchanged_show(episodes.deep_view(), r.deep_view()),
{
    let found = own_rows(episodes, r.id.as_str());
    let own = sorting::stable_sort(found);
    let ghost views = own.deep_view();
    let mut out: Vec<LibraryEpisode> = Vec::new();
    let mut i: usize = 0;
    while i < own.len()
        invariant
            i <= own@.len(),
            views == own.deep_view(),
            out@.len() == i,
            forall|j: int|
                0 <= j < i ==> (#[trigger] out@[j]).deep_view() == exchanged_episode(views[j]),
        decreases own.len() - i,
    {
        assert(views[i as int] == own@[i as int].deep_view());
        let e = LibraryEpisode {
            id: own[i].id.clone(),
            relative_path: own[i].relative_path.clone(),
            position: own[i].position,
            updated_at: own[i].updated_at.clone(),
            watched_at: own[i].watched_at.clone(),
            resume_pos: own[i].resume_pos,
        };
        assert(e.deep_view() =~= exchanged_episode(views[i as int]));
        out.push(e);
        i = i + 1;
    }
    let s = LibraryShow {
        id: r.id.clone(),
        playlist: r.playlist.clone(),
        name: r.name.clone(),
        root_path: r.root_path.clone(),
        updated_at: r.updated_at.clone(),
        date_added: r.date_added.clone(),
        removed_at: r.removed_at.clone(),
        episodes: out,
    };
    assert(s.deep_view() =~= exchanged_show(episodes.deep_view(), r.deep_view()));
    s
}

/// Reads the shows of some playlists out of the origin's tables.
pub fn load_library_shows(origin: &Replica, playlists: &[String]) -> (r: Vec<LibraryShow>)
    ensures
        r.deep_view() == exchanged_shows(
            origin.shows.deep_view(),
            origin.episodes.deep_view(),
            playlists.deep_view(),
        ),
{
    let ghost views = origin.shows.deep_view();
    let ghost eps = origin.episodes.deep_view();
    let ghost pls = playlists.deep_view();
    let mut out: Vec<LibraryShow> = Vec::new();
    let mut i: usize = 0;
    assert(out.deep_view() =~= exchanged_shows(views.take(0), eps, pls));
    while i < origin.shows.len()
        invariant
            i <= origin.shows@.len(),
            views == origin.shows.deep_view(),
            eps == origin.episodes.deep_view(),
            pls == playlists.deep_view(),
            out.deep_view() == exchanged_shows(views.take(i as int), eps, pls),
        decreases origin.shows.len() - i,
    {
        proof {
            assert(views[i as int] == origin.shows@[i as int].deep_view());
            assert(views.take(i + 1).drop_last() =~= views.take(i as int));
        }
        if text::is_among(origin.shows[i].playlist.as_str(), playlists) {
            let ghost before = out.deep_view();
            let s = show_to_exchange(&origin.episodes, &origin.shows[i]);
            out.push(s);
            assert(out.deep_view() =~= before.push(exchanged_show(eps, views[i as int])));
        }
        i = i + 1;
    }
    assert(views.take(i as int) =~= views);
    out
}

// ── rounds ──────────────────────────────────────────────────────────────

/// The entries of a playlist's round as the table lists them.
pub open spec fn rows_in(rows: Seq<tables::QueueRowView>, playlist: Seq<char>) -> Seq<
    tables::QueueRowView,
>
    decreases rows.len(),
{
    if rows.len() == 0 {
        Seq::empty()
    } else if rows.last().playlist == playlist {
        rows_in(rows.drop_last(), playlist).push(rows.last())
    } else {
        rows_in(rows.drop_last(), playlist)
    }
}

/// The latest of a time and the times of the rows.
pub open spec fn latest(rows: Seq<tables::QueueRowView>, at_least: Seq<char>) -> Seq<char>
    decreases rows.len(),
{
    if rows.len() == 0 {
        at_least
    } else {
        let before = latest(rows.drop_last(), at_least);
        if text::text_before(before, rows.last().updated_at) {
            rows.last().updated_at
        } else {
            before
        }
    }
}

pub open spec fn exchanged_entry(r: tables::QueueRowView) -> model::RoundQueueEntryView {
    model::RoundQueueEntryView {
        episode_id: r.episode_id,
        show_id: r.show_id,
        play_order: r.play_order,
        state: r.state,
    }
}

/// When the round of a playlist was stamped.
pub open spec fn stamp_of(stamps: Seq<tables::QueueStampView>, playlist: Seq<char>) -> Option<
    Seq<char>,
> {
    match tables::place::<QueueStamp>(stamps, playlist) {
        Some(i) => Some(stamps[i].updated_at),
        None => None,
    }
}

/// The round of a playlist, where it has entries or was ever stamped.
pub open spec fn exchanged_queue(
    rows: Seq<tables::QueueRowView>,
    stamp: Option<Seq<char>>,
    playlist: Seq<char>,
) -> Option<model::LibraryQueueView> {
    let own = sorting::in_order::<QueueRow>(rows_in(rows, playlist));
    if own.len() == 0 && stamp is None {
        None
    } else {
        let since = match stamp {
            Some(t) => t,
            None => EPOCH@,
        };
        Some(
            model::LibraryQueueView {
                playlist,
                updated_at: latest(own, since),
                entries: Seq::new(own.len(), |i: int| exchanged_entry(own[i])),
            },
        )
    }
}

pub open spec fn exchanged_queues(
    rows: Seq<tables::QueueRowView>,
    stamps: Seq<tables::QueueStampView>,
    playlists: Seq<Seq<char>>,
) -> Seq<model::LibraryQueueView>
    decreases playlists.len(),
{
    if playlists.len() == 0 {
        Seq::empty()
    } else {
        let before = exchanged_queues(rows, stamps, playlists.drop_last());
        match exchanged_queue(rows, stamp_of(stamps, playlists.last()), playlists.last()) {
            Some(q) => before.push(q),
            None => before,
        }
    }
}

fn copy_entry(r: &QueueRow) -> (c: QueueRow)
    ensures
        c.deep_view() == r.deep_view(),
{
    QueueRow {
        episode_id: r.episode_id.clone(),
        show_id: r.show_id.clone(),
        play_order: r.play_order,
        state: r.state.clone(),
        playlist: r.playlist.clone(),
        updated_at: r.updated_at.clone(),
        dirty: r.dirty,
    }
}

fn own_entries(rows: &Vec<QueueRow>, playlist: &str) -> (r: Vec<QueueRow>)
    ensures
        r.deep_view() == rows_in(rows.deep_view(), playlist@),
{
    let ghost views = rows.deep_view();
    let mut out: Vec<QueueRow> = Vec::new();
    let mut i: usize = 0;
    assert(out.deep_view() =~= rows_in(views.take(0), playlist@));
    while i < rows.len()
        invariant
            i <= rows@.len(),
            views == rows.deep_view(),
            out.deep_view() == rows_in(views.take(i as int), playlist@),
        decreases rows.len() - i,
    {
        proof {
            assert(views[i as int] == rows@[i as int].deep_view());
            assert(views.take(i + 1).drop_last() =~= views.take(i as int));
        }
        if text::same_text(rows[i].playlist.as_str(), playlist) {
            let ghost before = out.deep_view();
            let row = copy_entry(&rows[i]);
            out.push(row);
            assert(out.deep_view() =~= before.push(views[i as int]));
        }
        i = i + 1;
    }
    assert(views.take(i as int) =~= views);
    out
}

fn queue_to_exchange(rows: &Vec<QueueRow>, stamp: Option<String>, playlist: &str) -> (r: Option<
    LibraryQueue,
>)
    ensures
        r.deep_view() == exchanged_queue(rows.deep_view(), stamp.deep_view(), playlist@),
{
    let found = own_entries(rows, playlist);
    let own = sorting::stable_sort(found);
    let ghost views = own.deep_view();
    if own.len() == 0 && stamp.is_none() {
        return None;
    }
    let mut updated_at = match stamp {
        Some(t) => t,
        None => EPOCH.to_owned(),
    };
    let ghost since = updated_at@;
    let mut out: Vec<RoundQueueEntry> = Vec::new();
    let mut i: usize = 0;
    assert(views.take(0) =~= Seq::empty());
    while i < own.len()
        invariant
            i <= own@.len(),
            views == own.deep_view(),
            updated_at@ == latest(views.take(i as int), since),
            out@.len() == i,
            forall|j: int|
                0 <= j < i ==> (#[trigger] out@[j]).deep_view() == exchanged_entry(views[j]),
        decreases own.len() - i,
    {
        proof {
            assert(views[i as int] == own@[i as int].deep_view());
            assert(views.take(i + 1).drop_last() =~= views.take(i as int));
        }
        match text::rank_text(updated_at.as_str(), own[i].updated_at.as_str()) {
            Rank::Below => {
                updated_at = own[i].updated_at.clone();
            },
            _ => {},
        }
        let e = RoundQueueEntry {
            episode_id: own[i].episode_id.clone(),
            show_id: own[i].show_id.clone(),
            play_order: own[i].play_order,
            state: own[i].state.clone(),
        };
        assert(e.deep_view() =~= exchanged_entry(views[i as int]));
        out.push(e);
        i = i + 1;
    }
    assert(views.take(i as int) =~= views);
    let q = LibraryQueue { playlist: playlist.to_owned(), updated_at, entries: out };
    assert(q.entries.deep_view() =~= Seq::new(views.len(), |k: int| exchanged_entry(views[k])));
    Some(q)
}

/// Reads the rounds of some playlists out of the origin's tables.
pub fn load_library_queues(origin: &Replica, playlists: &[String]) -> (r: Vec<LibraryQueue>)
    ensures
        r.deep_view() == exchanged_queues(
            origin.queue.deep_view(),
            origin.queue_stamps.deep_view(),
            playlists.deep_view(),
        ),
{
    let ghost rows = origin.queue.deep_view();
    let ghost stamps = origin.queue_stamps.deep_view();
    let ghost pls = playlists.deep_view();
    let mut out: Vec<LibraryQueue> = Vec::new();
    let mut i: usize = 0;
    assert(out.deep_view() =~= exchanged_queues(rows, stamps, pls.take(0)));
    while i < playlists.len()
        invariant
            i <= playlists@.len(),
            rows == origin.queue.deep_view(),
            stamps == origin.queue_stamps.deep_view(),
            pls == playlists.deep_view(),
            out.deep_view() == exchanged_queues(rows, stamps, pls.take(i as int)),
        decreases playlists.len() - i,
    {
        let playlist = playlists[i].as_str();
        proof {
            assert(pls[i as int] == playlist@);
            assert(pls.take(i + 1).drop_last() =~= pls.take(i as int));
        }
        let stamp = match tables::find(&origin.queue_stamps, playlist) {
            Some(at) => {
                assert(stamps[at as int] == origin.queue_stamps@[at as int].deep_view());
                Some(origin.queue_stamps[at].updated_at.clone())
            },
            None => None,
        };
        assert(stamp.deep_view() == stamp_of(stamps, playlist@));
        match queue_to_exchange(&origin.queue, stamp, playlist) {
            Some(q) => {
                let ghost before = out.deep_view();
                out.push(q);
                assert(out.deep_view() =~= before.push(q.deep_view()));
            },
            None => {},
        }
        i = i + 1;
    }
    assert(pls.take(i as int) =~= pls);
    out
}

/// The time of an exchanged round is no earlier than that of any of its rows.
pub proof fn law_round_time_is_the_latest(
    rows: Seq<tables::QueueRowView>,
    at_least: Seq<char>,
    i: int,
)
    requires
        0 <= i < rows.len(),
    ensures
        !text::text_before(latest(rows, at_least), rows[i].updated_at),
        !text::text_before(latest(rows, at_least), at_least),
    decreases rows.len(),
{
    let front = rows.drop_last();
    let before = latest(front, at_least);
    let t = rows.last().updated_at;
    text::lemma_text_order(before, t);
    text::lemma_text_order(t, t);
    if front.len() > 0 {
        let k = if i < front.len() {
            i
        } else {
            0
        };
        law_round_time_is_the_latest(front, at_least, k);
        assert(front[k] == rows[k]);
        let x = rows[i].updated_at;
        text::lemma_text_order(before, x);
        text::lemma_text_order(before, at_least);
        text::lemma_text_order(t, at_least);
        text::lemma_text_order(t, x);
        if text::text_before(before, t) {
            if text::text_before(t, x) {
                text::lemma_text_before_transitive(before, t, x);
            }
            if text::text_before(t, at_least) {
                text::lemma_text_before_transitive(before, t, at_least);
            }
        }
    } else {
        text::lemma_text_order(at_least, at_least);
        text::lemma_text_order(t, at_least);
        if text::text_before(before, t) && text::text_before(t, at_least) {
            text::lemma_text_before_transitive(before, t, at_least);
        }
    }
}

} // verus!
