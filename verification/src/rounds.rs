//! The round that is played: read back from the stored one, or picked anew from
//! the library and stored.

use vstd::prelude::*;

use crate::clock;
use crate::engine;
use crate::engine::{Episode, Show};
use crate::laws;
use crate::ordering;
use crate::paths;
use crate::queue;
use crate::queue::StoredEntry;
use crate::replica;
use crate::replica::Replica;
use crate::sorting;
use crate::tables;
use crate::tables::{QueueRow, ShowRow};
use crate::text;

verus! {

/// An episode of the round. `local_path` leads to it under the cache's folder.
#[derive(Debug, Clone)]
pub struct RoundEntry {
    pub show_id: String,
    pub show_name: String,
    pub episode_id: String,
    pub local_path: Vec<String>,
    pub nas_absolute_path: String,
    pub relative_path: String,
    pub order_value: u32,
    pub playlist: String,
    pub position: i64,
}

#[verifier::ext_equal]
pub struct RoundEntryView {
    pub show_id: Seq<char>,
    pub show_name: Seq<char>,
    pub episode_id: Seq<char>,
    pub local_path: Seq<Seq<char>>,
    pub nas_absolute_path: Seq<char>,
    pub relative_path: Seq<char>,
    pub order_value: u32,
    pub playlist: Seq<char>,
    pub position: i64,
}

impl DeepView for RoundEntry {
    type V = RoundEntryView;

    open spec fn deep_view(&self) -> RoundEntryView {
        RoundEntryView {
            show_id: self.show_id@,
            show_name: self.show_name@,
            episode_id: self.episode_id@,
            local_path: self.local_path.deep_view(),
            nas_absolute_path: self.nas_absolute_path@,
            relative_path: self.relative_path@,
            order_value: self.order_value,
            playlist: self.playlist@,
            position: self.position,
        }
    }
}

/// The entry of an episode of a show.
pub open spec fn entry_for(
    s: engine::ShowView,
    e: engine::EpisodeView,
    nas_absolute_path: Seq<char>,
    order_value: u32,
) -> RoundEntryView {
    RoundEntryView {
        show_id: s.id,
        show_name: s.name,
        episode_id: e.id,
        local_path: paths::local_path(s.name, e.relative_path),
        nas_absolute_path,
        relative_path: e.relative_path,
        order_value,
        playlist: s.playlist,
        position: e.position,
    }
}

fn make_entry(s: &Show, e: &Episode, nas_absolute_path: String, order_value: u32) -> (r: RoundEntry)
    ensures
        r.deep_view() == entry_for(
            s.deep_view(),
            e.deep_view(),
            nas_absolute_path@,
            order_value,
        ),
{
    RoundEntry {
        show_id: s.id.clone(),
        show_name: s.name.clone(),
        episode_id: e.id.clone(),
        local_path: paths::get_local_path(s.name.as_str(), e.relative_path.as_str()),
        nas_absolute_path,
        relative_path: e.relative_path.clone(),
        order_value,
        playlist: s.playlist.clone(),
        position: e.position,
    }
}

fn find_episode(episodes: &Vec<Episode>, id: &str) -> (r: Option<usize>)
    ensures
        r matches Some(i) ==> i < episodes@.len() && engine::first_named(
            episodes.deep_view(),
            id@,
        ) == Some(i as int),
        r is None ==> engine::first_named(episodes.deep_view(), id@) is None,
{
    let ghost views = episodes.deep_view();
    let mut i: usize = 0;
    while i < episodes.len()
        invariant
            i <= episodes@.len(),
            views == episodes.deep_view(),
            forall|j: int| 0 <= j < i ==> (#[trigger] views[j]).id != id@,
        decreases episodes.len() - i,
    {
        assert(views[i as int] == episodes@[i as int].deep_view());
        if text::same_text(episodes[i].id.as_str(), id) {
            proof {
                engine::lemma_first_named_is(views, id@, i as int);
            }
            return Some(i);
        }
        i = i + 1;
    }
    proof {
        engine::lemma_first_named(views, id@);
    }
    None
}

// ── the stored round ────────────────────────────────────────────────────

/// The entry that a stored row stands for: none where its playlist is not among
/// those played, or its show or episode is gone.
pub open spec fn stored_entry(
    v: replica::LibraryView,
    row: tables::QueueRowView,
    playlists: Seq<Seq<char>>,
) -> Option<RoundEntryView> {
    if !playlists.contains(row.playlist) {
        None
    } else {
        match replica::show_of(v, row.show_id) {
            Some(s) => match engine::first_named(s.episodes, row.episode_id) {
                Some(i) => Some(
                    entry_for(
                        s,
                        s.episodes[i],
                        ordering::joined(s.root_path, s.episodes[i].relative_path),
                        row.play_order as u32,
                    ),
                ),
                None => None,
            },
            None => None,
        }
    }
}

pub open spec fn stored_entries(
    v: replica::LibraryView,
    rows: Seq<tables::QueueRowView>,
    playlists: Seq<Seq<char>>,
) -> Seq<RoundEntryView>
    decreases rows.len(),
{
    if rows.len() == 0 {
        Seq::empty()
    } else {
        let before = stored_entries(v, rows.drop_last(), playlists);
        match stored_entry(v, rows.last(), playlists) {
            Some(e) => before.push(e),
            None => before,
        }
    }
}

/// Whether an entry is still to be played.
pub open spec fn is_open(state: Seq<char>) -> bool {
    state == "pending"@ || state == "playing"@
}

/// The place of the first entry that is still to be played.
pub open spec fn first_open(
    v: replica::LibraryView,
    rows: Seq<tables::QueueRowView>,
    playlists: Seq<Seq<char>>,
) -> Option<nat>
    decreases rows.len(),
{
    if rows.len() == 0 {
        None
    } else {
        match first_open(v, rows.drop_last(), playlists) {
            Some(i) => Some(i),
            None => if stored_entry(v, rows.last(), playlists) is Some && is_open(
                rows.last().state,
            ) {
                Some(stored_entries(v, rows.drop_last(), playlists).len())
            } else {
                None
            },
        }
    }
}

/// The round that is stored for some playlists, and where to go on in it: none
/// where nothing of it is left to play.
pub open spec fn stored_round(v: replica::LibraryView, playlists: Seq<Seq<char>>) -> (
    Seq<RoundEntryView>,
    nat,
) {
    let rows = sorting::in_order::<QueueRow>(v.queue);
    match first_open(v, rows, playlists) {
        Some(pos) => (stored_entries(v, rows, playlists), pos),
        None => (Seq::empty(), 0),
    }
}

fn read_entry(library: &Replica, row: &QueueRow, playlists: &[String]) -> (r: Option<RoundEntry>)
    ensures
        r.deep_view() == stored_entry(
            library.deep_view(),
            row.deep_view(),
            playlists.deep_view(),
        ),
{
    if !text::is_among(row.playlist.as_str(), playlists) {
        return None;
    }
    match library.show(row.show_id.as_str()) {
        Some(show) => match find_episode(&show.episodes, row.episode_id.as_str()) {
            Some(i) => {
                assert(show.episodes.deep_view()[i as int] == show.episodes@[i as int].deep_view());
                let nas = ordering::join_path(
                    show.root_path.as_str(),
                    show.episodes[i].relative_path.as_str(),
                );
                let order_value: u32 = row.play_order as u32;
                Some(make_entry(&show, &show.episodes[i], nas, order_value))
            },
            None => None,
        },
        None => None,
    }
}

/// Reads the stored round of some playlists, and where to go on in it.
pub fn load_round_from_db(library: &Replica, playlists: &[String]) -> (r: (Vec<RoundEntry>, usize))
    ensures
        r.0.deep_view() == stored_round(library.deep_view(), playlists.deep_view()).0,
        r.1 == stored_round(library.deep_view(), playlists.deep_view()).1,
        r.0@.len() > 0 ==> r.1 < r.0@.len(),
{
    let rows = library.get_round_queue();
    let ghost v = library.deep_view();
    let ghost views = rows.deep_view();
    let ghost pls = playlists.deep_view();
    let mut round: Vec<RoundEntry> = Vec::new();
    let mut pos: Option<usize> = None;
    let mut i: usize = 0;
    assert(round.deep_view() =~= stored_entries(v, views.take(0), pls));
    while i < rows.len()
        invariant
            i <= rows@.len(),
            v == library.deep_view(),
            views == rows.deep_view(),
            pls == playlists.deep_view(),
            round.deep_view() == stored_entries(v, views.take(i as int), pls),
            match (pos, first_open(v, views.take(i as int), pls)) {
                (Some(p), Some(q)) => p == q && p < round@.len(),
                (None, None) => true,
                _ => false,
            },
        decreases rows.len() - i,
    {
        proof {
            assert(views[i as int] == rows@[i as int].deep_view());
            assert(views.take(i + 1).drop_last() =~= views.take(i as int));
            assert(views.take(i + 1).last() == views[i as int]);
        }
        match read_entry(library, &rows[i], playlists) {
            Some(e) => {
                let state = rows[i].state.as_str();
                if pos.is_none() && (text::same_text(state, "pending") || text::same_text(
                    state,
                    "playing",
                )) {
                    pos = Some(round.len());
                }
                let ghost before = round.deep_view();
                round.push(e);
                assert(round.deep_view() =~= before.push(e.deep_view()));
            },
            None => {},
        }
        i = i + 1;
    }
    assert(views.take(i as int) =~= views);
    match pos {
        Some(p) => (round, p),
        None => {
            let none: Vec<RoundEntry> = Vec::new();
            assert(none.deep_view() =~= Seq::empty());
            (none, 0)
        },
    }
}

// ── a new round ─────────────────────────────────────────────────────────

/// The place of the first show with the id.
pub open spec fn show_named(shows: Seq<engine::ShowView>, id: Seq<char>) -> Option<int>
    decreases shows.len(),
{
    if shows.len() == 0 {
        None
    } else {
        match show_named(shows.drop_last(), id) {
            Some(i) => Some(i),
            None => if shows.last().id == id {
                Some(shows.len() - 1)
            } else {
                None
            },
        }
    }
}

proof fn lemma_show_named(shows: Seq<engine::ShowView>, id: Seq<char>, i: int)
    requires
        0 <= i < shows.len(),
        shows[i].id == id,
        forall|j: int| 0 <= j < i ==> (#[trigger] shows[j]).id != id,
    ensures
        show_named(shows, id) == Some(i),
    decreases shows.len(),
{
    let front = shows.drop_last();
    if i < front.len() {
        lemma_show_named(front, id, i);
    } else {
        lemma_no_show_named(front, id);
    }
}

proof fn lemma_no_show_named(shows: Seq<engine::ShowView>, id: Seq<char>)
    requires
        forall|j: int| 0 <= j < shows.len() ==> (#[trigger] shows[j]).id != id,
    ensures
        show_named(shows, id) is None,
    decreases shows.len(),
{
    if shows.len() > 0 {
        lemma_no_show_named(shows.drop_last(), id);
        assert(shows[shows.len() - 1].id != id);
    }
}

/// The entry of a place in the order of the round.
pub open spec fn picked_entry(
    shows: Seq<engine::ShowView>,
    o: ordering::OrderedView,
) -> RoundEntryView {
    let s = shows[show_named(shows, o.show_id)->0];
    let e = s.episodes[engine::first_named(s.episodes, o.episode_id)->0];
    entry_for(s, e, o.absolute_path, o.order_value)
}

/// The round that the active shows of some playlists make.
pub open spec fn picked_round(v: replica::LibraryView, playlists: Seq<Seq<char>>) -> Seq<
    RoundEntryView,
> {
    let shows = replica::active_among(v, v.shows, playlists);
    let order = engine::round_of_shows(shows);
    Seq::new(order.len(), |i: int| picked_entry(shows, order[i]))
}

/// No two of the shows have the same id.
pub open spec fn distinct_shows(shows: Seq<engine::ShowView>) -> bool {
    forall|a: int, b: int|
        #![trigger shows[a], shows[b]]
        0 <= a < b < shows.len() ==> shows[a].id != shows[b].id
}

pub proof fn lemma_active_row(
    v: replica::LibraryView,
    rows: Seq<tables::ShowRowView>,
    playlists: Seq<Seq<char>>,
    k: int,
)
    requires
        0 <= k < replica::active_among(v, rows, playlists).len(),
    ensures
        exists|i: int|
            0 <= i < rows.len() && replica::active_among(v, rows, playlists)[k]
                == replica::assembled(v, #[trigger] rows[i]),
    decreases rows.len(),
{
    let front = rows.drop_last();
    let some = replica::active_among(v, front, playlists);
    if k < some.len() {
        lemma_active_row(v, front, playlists, k);
        let i = choose|i: int|
            0 <= i < front.len() && some[k] == replica::assembled(v, #[trigger] front[i]);
        assert(rows[i] == front[i]);
    } else {
        assert(rows[rows.len() - 1] == rows.last());
    }
}

pub proof fn lemma_active_distinct(
    v: replica::LibraryView,
    rows: Seq<tables::ShowRowView>,
    playlists: Seq<Seq<char>>,
)
    requires
        tables::distinct::<ShowRow>(rows),
    ensures
        distinct_shows(replica::active_among(v, rows, playlists)),
    decreases rows.len(),
{
    if rows.len() > 0 {
        let front = rows.drop_last();
        assert(tables::distinct::<ShowRow>(front)) by {
            assert forall|i: int, j: int|
                #![trigger front[i], front[j]]
                0 <= i < j < front.len() implies front[i].id != front[j].id by {
                assert(rows[i].id != rows[j].id);
            }
        }
        lemma_active_distinct(v, front, playlists);
        let all = replica::active_among(v, rows, playlists);
        let some = replica::active_among(v, front, playlists);
        assert forall|a: int, b: int|
            #![trigger all[a], all[b]]
            0 <= a < b < all.len() implies all[a].id != all[b].id by {
            assert(all[a] == some[a]);
            if b < some.len() {
                assert(all[b] == some[b]);
            } else {
                lemma_active_row(v, front, playlists, a);
                let i = choose|i: int|
                    0 <= i < front.len() && some[a] == replica::assembled(v, #[trigger] front[i]);
                assert(rows[i].id != rows[rows.len() - 1].id);
            }
        }
    }
}

/// An entry of the order leads back to its show and its episode.
pub proof fn lemma_order_resolves(shows: Seq<engine::ShowView>, k: int)
    requires
        distinct_shows(shows),
        0 <= k < engine::round_of_shows(shows).len(),
    ensures
        ({
            let o = engine::round_of_shows(shows)[k];
            &&& show_named(shows, o.show_id) matches Some(i) && 0 <= i < shows.len()
                && shows[i].id == o.show_id && engine::first_named(
                shows[i].episodes,
                o.episode_id,
            ) is Some
        }),
{
    let o = engine::round_of_shows(shows)[k];
    engine::law_rounds_hold_only_picks_of_active_shows(shows, k);
    let i = choose|i: int|
        0 <= i < shows.len() && (#[trigger] shows[i]).removed_at is None && shows[i].id == o.show_id
            && engine::pick(shows[i].episodes) is Some && engine::pick(shows[i].episodes)->0.id
            == o.episode_id;
    assert forall|j: int| 0 <= j < i implies (#[trigger] shows[j]).id != o.show_id by {
        assert(shows[j].id != shows[i].id);
    }
    lemma_show_named(shows, o.show_id, i);
    engine::lemma_pick_exists(shows[i].episodes);
    let eps = shows[i].episodes;
    let p = choose|p: int| engine::is_pick(eps, p) && engine::pick(eps) == Some(eps[p]);
    engine::lemma_first_named(eps, o.episode_id);
    assert(eps[p].id == o.episode_id);
}

/// An episode that an assembled show has is a row of the table that names the
/// show.
proof fn lemma_assembled_episode(
    v: replica::LibraryView,
    row: tables::ShowRowView,
    e: engine::EpisodeView,
)
    requires
        replica::assembled(v, row).episodes.contains(e),
    ensures
        exists|i: int|
            0 <= i < v.episodes.len() && (#[trigger] v.episodes[i]).show_id == row.id
                && v.episodes[i].id == e.id,
{
    let raw = replica::episodes_in(v.episodes, row.id);
    sorting::lemma_in_order::<Episode>(raw);
    assert(raw.contains(e));
    laws::lemma_episodes_in_rows(v.episodes, row.id, e);
    let i = choose|i: int|
        0 <= i < v.episodes.len() && (#[trigger] v.episodes[i]).show_id == row.id
            && replica::to_episode(v.episodes[i]) == e;
    assert(v.episodes[i].id == e.id);
}

proof fn lemma_picked_row(v: replica::LibraryView, playlists: Seq<Seq<char>>, k: int)
    requires
        v.well_formed(),
        0 <= k < picked_round(v, playlists).len(),
    ensures
        exists|i: int|
            0 <= i < v.episodes.len() && (#[trigger] v.episodes[i]).show_id == picked_round(
                v,
                playlists,
            )[k].show_id && v.episodes[i].id == picked_round(v, playlists)[k].episode_id,
        picked_round(v, playlists)[k].show_id == engine::round_of_shows(
            replica::active_among(v, v.shows, playlists),
        )[k].show_id,
        picked_round(v, playlists)[k].episode_id == engine::round_of_shows(
            replica::active_among(v, v.shows, playlists),
        )[k].episode_id,
{
    let shows = replica::active_among(v, v.shows, playlists);
    let o = engine::round_of_shows(shows)[k];
    lemma_active_distinct(v, v.shows, playlists);
    lemma_order_resolves(shows, k);
    let s = show_named(shows, o.show_id)->0;
    engine::lemma_first_named(shows[s].episodes, o.episode_id);
    let e = engine::first_named(shows[s].episodes, o.episode_id)->0;
    lemma_active_row(v, v.shows, playlists, s);
    let r = choose|i: int|
        0 <= i < v.shows.len() && shows[s] == replica::assembled(v, #[trigger] v.shows[i]);
    assert(shows[s].episodes.contains(shows[s].episodes[e]));
    lemma_assembled_episode(v, v.shows[r], shows[s].episodes[e]);
}

/// No episode is in a new round twice, and no show.
pub proof fn law_picked_round_is_distinct(
    v: replica::LibraryView,
    playlists: Seq<Seq<char>>,
    j: int,
    k: int,
)
    requires
        v.well_formed(),
        0 <= j < k < picked_round(v, playlists).len(),
    ensures
        picked_round(v, playlists)[j].show_id != picked_round(v, playlists)[k].show_id,
        picked_round(v, playlists)[j].episode_id != picked_round(v, playlists)[k].episode_id,
{
    let shows = replica::active_among(v, v.shows, playlists);
    let round = picked_round(v, playlists);
    lemma_active_distinct(v, v.shows, playlists);
    engine::law_one_episode_per_show(shows, j, k);
    lemma_picked_row(v, playlists, j);
    lemma_picked_row(v, playlists, k);
    let a = choose|i: int|
        0 <= i < v.episodes.len() && (#[trigger] v.episodes[i]).show_id == round[j].show_id
            && v.episodes[i].id == round[j].episode_id;
    let b = choose|i: int|
        0 <= i < v.episodes.len() && (#[trigger] v.episodes[i]).show_id == round[k].show_id
            && v.episodes[i].id == round[k].episode_id;
    if round[j].episode_id == round[k].episode_id {
        if a < b {
            assert(v.episodes[a].id != v.episodes[b].id);
        } else if b < a {
            assert(v.episodes[b].id != v.episodes[a].id);
        }
        assert(a == b);
    }
}

pub(crate) fn find_show(shows: &Vec<Show>, id: &str) -> (r: Option<usize>)
    ensures
        r matches Some(i) ==> i < shows@.len() && show_named(shows.deep_view(), id@) == Some(
            i as int,
        ),
        r is None ==> show_named(shows.deep_view(), id@) is None,
{
    let ghost views = shows.deep_view();
    let mut i: usize = 0;
    while i < shows.len()
        invariant
            i <= shows@.len(),
            views == shows.deep_view(),
            forall|j: int| 0 <= j < i ==> (#[trigger] views[j]).id != id@,
        decreases shows.len() - i,
    {
        assert(views[i as int] == shows@[i as int].deep_view());
        if text::same_text(shows[i].id.as_str(), id) {
            proof {
                lemma_show_named(views, id@, i as int);
            }
            return Some(i);
        }
        i = i + 1;
    }
    proof {
        lemma_no_show_named(views, id@);
    }
    None
}

/// Picks a round from the active shows of some playlists.
pub fn fetch_round(library: &Replica, playlists: &[String]) -> (r: Vec<RoundEntry>)
    requires
        library.deep_view().well_formed(),
    ensures
        r.deep_view() == picked_round(library.deep_view(), playlists.deep_view()),
{
    let shows = library.active_shows(playlists);
    let order = engine::next_round(shows.as_slice());
    let ghost v = library.deep_view();
    let ghost sv = shows.deep_view();
    let ghost ov = order.deep_view();
    let ghost want = picked_round(v, playlists.deep_view());
    proof {
        lemma_active_distinct(v, v.shows, playlists.deep_view());
    }
    let mut out: Vec<RoundEntry> = Vec::new();
    let mut i: usize = 0;
    while i < order.len()
        invariant
            i <= order@.len(),
            sv == shows.deep_view(),
            ov == order.deep_view(),
            distinct_shows(sv),
            ov == engine::round_of_shows(sv),
            want.len() == ov.len(),
            forall|j: int| 0 <= j < ov.len() ==> #[trigger] want[j] == picked_entry(sv, ov[j]),
            out.deep_view() == want.take(i as int),
        decreases order.len() - i,
    {
        let o = &order[i];
        proof {
            assert(ov[i as int] == o.deep_view());
            lemma_order_resolves(sv, i as int);
        }
        match find_show(&shows, o.show_id.as_str()) {
            Some(s) => {
                assert(sv[s as int] == shows@[s as int].deep_view());
                match find_episode(&shows[s].episodes, o.episode_id.as_str()) {
                    Some(e) => {
                        let ghost before = out.deep_view();
                        assert(shows@[s as int].episodes.deep_view()[e as int]
                            == shows@[s as int].episodes@[e as int].deep_view());
                        let entry = make_entry(
                            &shows[s],
                            &shows[s].episodes[e],
                            o.absolute_path.clone(),
                            o.order_value,
                        );
                        out.push(entry);
                        assert(want[i as int] == picked_entry(sv, ov[i as int]));
                        assert(out.deep_view() =~= before.push(want[i as int]));
                        assert(out.deep_view() =~= want.take(i + 1));
                    },
                    None => {
                        assert(false);
                    },
                }
            },
            None => {
                assert(false);
            },
        }
        i = i + 1;
    }
    assert(want.take(i as int) =~= want);
    out
}

/// The rows that store a round: all of it is still to be played.
pub open spec fn rows_to_store(round: Seq<RoundEntryView>) -> Seq<queue::StoredEntryView> {
    Seq::new(
        round.len(),
        |i: int|
            (
                round[i].episode_id,
                round[i].show_id,
                i as i32,
                "pending"@,
                round[i].playlist,
            ),
    )
}

/// The library with a new round stored, where there is one.
pub open spec fn round_renewed(
    v: replica::LibraryView,
    playlists: Seq<Seq<char>>,
    now: Seq<char>,
) -> replica::LibraryView {
    let round = picked_round(v, playlists);
    if round.len() == 0 {
        v
    } else {
        queue::round_saved(v, rows_to_store(round), now)
    }
}

/// Picks a round and stores it.
pub fn compute_and_save_new_round_at(library: &mut Replica, playlists: &[String], now: &str) -> (r:
    Vec<RoundEntry>)
    requires
        old(library).deep_view().well_formed(),
    ensures
        r.deep_view() == picked_round(old(library).deep_view(), playlists.deep_view()),
        final(library).deep_view() == round_renewed(
            old(library).deep_view(),
            playlists.deep_view(),
            now@,
        ),
        final(library).deep_view().well_formed(),
{
    let round = fetch_round(library, playlists);
    let ghost v = library.deep_view();
    let ghost want = round.deep_view();
    if round.len() == 0 {
        return round;
    }
    let mut entries: Vec<StoredEntry> = Vec::new();
    let mut i: usize = 0;
    assert(entries.deep_view() =~= rows_to_store(want).take(0));
    while i < round.len()
        invariant
            i <= round@.len(),
            want == round.deep_view(),
            entries.deep_view() == rows_to_store(want).take(i as int),
        decreases round.len() - i,
    {
        assert(want[i as int] == round@[i as int].deep_view());
        let ghost before = entries.deep_view();
        let place: i32 = i as i32;
        let row: StoredEntry = (
            round[i].episode_id.clone(),
            round[i].show_id.clone(),
            place,
            "pending".to_owned(),
            round[i].playlist.clone(),
        );
        entries.push(row);
        assert(entries.deep_view() =~= before.push(rows_to_store(want)[i as int]));
        assert(entries.deep_view() =~= rows_to_store(want).take(i + 1));
        i = i + 1;
    }
    assert(entries.deep_view() =~= rows_to_store(want));
    proof {
        assert forall|j: int, k: int|
            #![trigger rows_to_store(want)[j], rows_to_store(want)[k]]
            0 <= j < k < want.len() implies rows_to_store(want)[j].0 != rows_to_store(
            want,
        )[k].0 by {
            law_picked_round_is_distinct(v, playlists.deep_view(), j, k);
        }
        laws::law_round_changes_keep_keys(v, rows_to_store(want), Seq::empty(), Seq::empty(), Seq::empty(), now@);
    }
    library.save_round_queue(entries.as_slice(), now);
    round
}

/// Picks a round and stores it under the time of the call.
pub fn compute_and_save_new_round(library: &mut Replica, playlists: &[String]) -> (r: Vec<
    RoundEntry,
>)
    requires
        old(library).deep_view().well_formed(),
    ensures
        r.deep_view() == picked_round(old(library).deep_view(), playlists.deep_view()),
        exists|now: Seq<char>|
            final(library).deep_view() == #[trigger] round_renewed(
                old(library).deep_view(),
                playlists.deep_view(),
                now,
            ),
        final(library).deep_view().well_formed(),
{
    let now = clock::now();
    compute_and_save_new_round_at(library, playlists, now.as_str())
}

/// The lowest position of a round's episodes.
pub open spec fn lowest_position(round: Seq<RoundEntryView>) -> int
    decreases round.len(),
{
    if round.len() <= 1 {
        round[0].position as int
    } else {
        let before = lowest_position(round.drop_last());
        if round.last().position < before {
            round.last().position as int
        } else {
            before
        }
    }
}

/// The number of a round: one more than the lowest position of its episodes, or
/// than the number of the round before, whichever is more. So the numbers go up.
pub open spec fn numbered(round: Seq<RoundEntryView>, last: Option<i64>) -> int {
    let lowest = lowest_position(round);
    if last is Some && last->0 > lowest {
        last->0 + 1
    } else {
        lowest + 1
    }
}

/// Numbers a round that comes on.
pub fn round_id(round: &[RoundEntry], last: Option<i64>) -> (r: i64)
    requires
        round@.len() > 0,
        numbered(round.deep_view(), last) <= i64::MAX,
    ensures
        r == numbered(round.deep_view(), last),
        last matches Some(n) ==> r > n,
{
    let ghost views = round.deep_view();
    let mut lowest: i64 = round[0].position;
    let mut i: usize = 1;
    proof {
        assert(views[0] == round@[0].deep_view());
        assert(views.take(1)[0] == views[0]);
    }
    while i < round.len()
        invariant
            1 <= i <= round@.len(),
            views == round.deep_view(),
            lowest == lowest_position(views.take(i as int)),
        decreases round.len() - i,
    {
        assert(views[i as int] == round@[i as int].deep_view());
        assert(views.take(i + 1).drop_last() =~= views.take(i as int));
        assert(views.take(i + 1).last() == views[i as int]);
        if round[i].position < lowest {
            lowest = round[i].position;
        }
        i = i + 1;
    }
    assert(views.take(i as int) =~= views);
    match last {
        Some(n) => if n > lowest {
            n + 1
        } else {
            lowest + 1
        },
        None => lowest + 1,
    }
}

} // verus!
