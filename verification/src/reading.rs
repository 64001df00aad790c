//! What reading the library gives, told from its rows.

use vstd::prelude::*;

use crate::browsing;
use crate::edits;
use crate::engine;
use crate::filesync;
use crate::library;
use crate::queue;
use crate::replica;
use crate::tables;
use crate::tables::{EpisodeRow, Keyed, PreferenceRow, QueueRow, ShowRow};
use crate::text;
use crate::watching;

verus! {

/// The active shows of some playlists are those that are not retired and are of one of
/// them, and all active shows are those that are not retired, in the order of the table.
pub proof fn law_active_shows_in_their_order(
    v: replica::LibraryView,
    rows: Seq<tables::ShowRowView>,
    playlists: Seq<Seq<char>>,
)
    ensures
        replica::active_among(v, rows, playlists) == rows.filter(
            |r: tables::ShowRowView| r.removed_at is None && playlists.contains(r.playlist),
        ).map_values(|r: tables::ShowRowView| replica::assembled(v, r)),
        replica::all_among(v, rows) == rows.filter(
            |r: tables::ShowRowView| r.removed_at is None,
        ).map_values(|r: tables::ShowRowView| replica::assembled(v, r)),
    decreases rows.len(),
{
    reveal(Seq::filter);
    let listed = |r: tables::ShowRowView|
        r.removed_at is None && playlists.contains(r.playlist);
    let kept = |r: tables::ShowRowView| r.removed_at is None;
    let whole = |r: tables::ShowRowView| replica::assembled(v, r);
    if rows.len() > 0 {
        let front = rows.drop_last();
        law_active_shows_in_their_order(v, front, playlists);
        if listed(rows.last()) {
            assert(rows.filter(listed).map_values(whole) =~= front.filter(listed).map_values(
                whole,
            ).push(whole(rows.last())));
        }
        if kept(rows.last()) {
            assert(rows.filter(kept).map_values(whole) =~= front.filter(kept).map_values(
                whole,
            ).push(whole(rows.last())));
        }
    } else {
        assert(rows.filter(listed).map_values(whole) =~= Seq::empty());
        assert(rows.filter(kept).map_values(whole) =~= Seq::empty());
    }
}

/// Where an episode was left is read from its row, and nothing where it has no row.
pub proof fn law_resume_is_read_from_the_row(v: replica::LibraryView, id: Seq<char>, e: int)
    requires
        v.well_formed(),
    ensures
        0 <= e < v.episodes.len() && v.episodes[e].id == id ==> replica::resume_of(v, id)
            == v.episodes[e].resume_pos,
        (forall|d: int| 0 <= d < v.episodes.len() ==> (#[trigger] v.episodes[d]).id != id)
            ==> replica::resume_of(v, id) is None,
{
    tables::lemma_place::<EpisodeRow>(v.episodes, id);
    match tables::place::<EpisodeRow>(v.episodes, id) {
        Some(d) => {
            assert(EpisodeRow::key(v.episodes[d]) == id);
            assert(v.episodes[d].id == id);
            if 0 <= e < v.episodes.len() && v.episodes[e].id == id {
                assert(EpisodeRow::key(v.episodes[e]) == id);
                if d < e {
                    assert(EpisodeRow::key(v.episodes[d]) != EpisodeRow::key(v.episodes[e]));
                }
            }
        },
        None => {
            if 0 <= e < v.episodes.len() && v.episodes[e].id == id {
                assert(EpisodeRow::key(v.episodes[e]) == id);
            }
        },
    }
}

/// The track choices of an episode are read from their row, and none where there is no
/// row.
pub proof fn law_choices_are_read_from_the_row(v: replica::LibraryView, id: Seq<char>, i: int)
    requires
        v.well_formed(),
    ensures
        0 <= i < v.preferences.len() && v.preferences[i].episode_id == id ==> {
            let p = replica::preferences_of(v, id);
            p.subtitle_track == v.preferences[i].subtitle_track && p.audio_track
                == v.preferences[i].audio_track
        },
        (forall|j: int|
            0 <= j < v.preferences.len() ==> (#[trigger] v.preferences[j]).episode_id != id) ==> {
            let p = replica::preferences_of(v, id);
            p.subtitle_track is None && p.audio_track is None
        },
{
    tables::lemma_place::<PreferenceRow>(v.preferences, id);
    match tables::place::<PreferenceRow>(v.preferences, id) {
        Some(d) => {
            assert(PreferenceRow::key(v.preferences[d]) == id);
            assert(v.preferences[d].episode_id == id);
            if 0 <= i < v.preferences.len() && v.preferences[i].episode_id == id {
                assert(PreferenceRow::key(v.preferences[i]) == id);
                if d < i {
                    assert(PreferenceRow::key(v.preferences[d]) != PreferenceRow::key(
                        v.preferences[i],
                    ));
                }
            }
        },
        None => {
            if 0 <= i < v.preferences.len() && v.preferences[i].episode_id == id {
                assert(PreferenceRow::key(v.preferences[i]) == id);
            }
        },
    }
}

/// An entry of the stored round is read with its show and its playlist, and not at all
/// where the round has none of the episode.
pub proof fn law_entry_is_read_from_the_row(v: replica::LibraryView, id: Seq<char>, q: int)
    requires
        v.well_formed(),
    ensures
        0 <= q < v.queue.len() && v.queue[q].episode_id == id ==> queue::entry_of(v, id) == Some(
            (v.queue[q].show_id, v.queue[q].playlist),
        ),
        (forall|d: int| 0 <= d < v.queue.len() ==> (#[trigger] v.queue[d]).episode_id != id)
            ==> queue::entry_of(v, id) is None,
{
    tables::lemma_place::<QueueRow>(v.queue, id);
    match tables::place::<QueueRow>(v.queue, id) {
        Some(d) => {
            assert(QueueRow::key(v.queue[d]) == id);
            assert(v.queue[d].episode_id == id);
            if 0 <= q < v.queue.len() && v.queue[q].episode_id == id {
                assert(QueueRow::key(v.queue[q]) == id);
                if d < q {
                    assert(QueueRow::key(v.queue[d]) != QueueRow::key(v.queue[q]));
                }
            }
        },
        None => {
            if 0 <= q < v.queue.len() && v.queue[q].episode_id == id {
                assert(QueueRow::key(v.queue[q]) == id);
            }
        },
    }
}

/// The paths of a show are those of its rows, in the order of the table.
pub proof fn law_paths_of_a_show(rows: Seq<tables::EpisodeRowView>, show_id: Seq<char>)
    ensures
        library::paths_in(rows, show_id) == rows.filter(
            |r: tables::EpisodeRowView| r.show_id == show_id,
        ).map_values(|r: tables::EpisodeRowView| r.relative_path),
    decreases rows.len(),
{
    reveal(Seq::filter);
    let own = |r: tables::EpisodeRowView| r.show_id == show_id;
    let path = |r: tables::EpisodeRowView| r.relative_path;
    if rows.len() > 0 {
        let front = rows.drop_last();
        law_paths_of_a_show(front, show_id);
        if own(rows.last()) {
            assert(rows.filter(own).map_values(path) =~= front.filter(own).map_values(path).push(
                rows.last().relative_path,
            ));
        }
    } else {
        assert(rows.filter(own).map_values(path) =~= Seq::empty());
    }
}

/// There is room behind a show unless one of its episodes has the highest position
/// there is.
pub proof fn law_room_behind_a_show(v: replica::LibraryView, s: int, e: int)
    requires
        v.well_formed(),
        0 <= s < v.shows.len(),
    ensures
        0 <= e < v.episodes.len() && v.episodes[e].show_id == v.shows[s].id
            && v.episodes[e].position == i64::MAX ==> !replica::has_room_behind(v, v.shows[s].id),
        (forall|d: int|
            0 <= d < v.episodes.len() && (#[trigger] v.episodes[d]).show_id == v.shows[s].id
                ==> v.episodes[d].position < i64::MAX) ==> replica::has_room_behind(
            v,
            v.shows[s].id,
        ),
{
    let id = v.shows[s].id;
    tables::lemma_place::<ShowRow>(v.shows, id);
    assert(ShowRow::key(v.shows[s]) == id);
    let t = replica::show_of(v, id)->0;
    edits::lemma_highest(t.episodes);
    if 0 <= e < v.episodes.len() && v.episodes[e].show_id == id {
        let k = watching::lemma_row_in_show(v, e);
        assert(t.episodes[k].position <= engine::highest_position(t.episodes));
    }
    let top = engine::highest_position(t.episodes);
    if top != 0 {
        let k = choose|k: int|
            0 <= k < t.episodes.len() && (#[trigger] t.episodes[k]).position == top;
        let x = watching::lemma_show_in_rows(v, id, k);
        assert(v.episodes[x].position == top);
    }
}

/// A rescan has positions for what it adds if and only if it adds nothing or the last
/// of the positions directly behind the show is one that there is.
pub proof fn law_when_a_rescan_fits(
    v: replica::LibraryView,
    show_id: Seq<char>,
    paths: Seq<Seq<char>>,
    first: int,
)
    requires
        edits::is_directly_behind(v.episodes, show_id, first),
    ensures
        ({
            let added = paths.filter(|p: Seq<char>| !browsing::has_path(v.episodes, show_id, p));
            library::rescan_fits(v, show_id, paths) <==> added.len() == 0 || first + added.len() - 1
                <= i64::MAX
        }),
{
    browsing::law_new_paths_of_a_scan(v.episodes, show_id, paths);
    edits::lemma_position_behind(v.episodes, show_id);
    let p = library::position_behind(v.episodes, show_id);
    if exists|e: int| 0 <= e < v.episodes.len() && (#[trigger] v.episodes[e]).show_id == show_id {
        let a = choose|e: int|
            0 <= e < v.episodes.len() && (#[trigger] v.episodes[e]).show_id == show_id
                && v.episodes[e].position + 1 == p;
        let b = choose|e: int|
            0 <= e < v.episodes.len() && (#[trigger] v.episodes[e]).show_id == show_id
                && v.episodes[e].position + 1 == first;
        assert(v.episodes[a].position < first && v.episodes[b].position < p);
    }
}

/// The summary of a round's files names the counts that are not zero, in their order,
/// between commas.
pub proof fn law_summary_names_what_there_is(r: filesync::ReportView)
    ensures
        ({
            let counts = seq![
                (r.copied, " copied"@),
                (r.cached, " cached"@),
                (r.missing, " missing"@),
                (r.failed, " failed"@),
            ];
            let named = counts.filter(|c: (nat, Seq<char>)| c.0 > 0).map_values(
                |c: (nat, Seq<char>)| text::decimal(c.0) + c.1,
            );
            &&& named.len() > 0 ==> filesync::summary_of(r) == text::joined_with(named, ", "@)
            &&& named.len() == 0 ==> filesync::summary_of(r) == "no files needed"@
        }),
{
    let counts = seq![
        (r.copied, " copied"@),
        (r.cached, " cached"@),
        (r.missing, " missing"@),
        (r.failed, " failed"@),
    ];
    let some = |c: (nat, Seq<char>)| c.0 > 0;
    let told = |c: (nat, Seq<char>)| text::decimal(c.0) + c.1;
    lemma_part_told(counts.take(0), counts[0]);
    lemma_part_told(counts.take(1), counts[1]);
    lemma_part_told(counts.take(2), counts[2]);
    lemma_part_told(counts.take(3), counts[3]);
    assert(counts.take(0).push(counts[0]) =~= counts.take(1));
    assert(counts.take(1).push(counts[1]) =~= counts.take(2));
    assert(counts.take(2).push(counts[2]) =~= counts.take(3));
    assert(counts.take(3).push(counts[3]) =~= counts);
    assert(parts_told(counts.take(0)) =~= Seq::empty()) by {
        reveal(Seq::filter);
    }
    assert(parts_told(counts) == counts.filter(some).map_values(told));
}

spec fn parts_told(counts: Seq<(nat, Seq<char>)>) -> Seq<Seq<char>> {
    counts.filter(|c: (nat, Seq<char>)| c.0 > 0).map_values(
        |c: (nat, Seq<char>)| text::decimal(c.0) + c.1,
    )
}

proof fn lemma_part_told(counts: Seq<(nat, Seq<char>)>, c: (nat, Seq<char>))
    ensures
        parts_told(counts.push(c)) == filesync::part(parts_told(counts), c.0, c.1),
{
    reveal(Seq::filter);
    let some = |c: (nat, Seq<char>)| c.0 > 0;
    let told = |c: (nat, Seq<char>)| text::decimal(c.0) + c.1;
    let all = counts.push(c);
    assert(all.drop_last() =~= counts);
    assert(all.last() == c);
    if c.0 > 0 {
        assert(all.filter(some) == counts.filter(some).push(c));
        assert(parts_told(all) =~= parts_told(counts).push(text::decimal(c.0) + c.1));
    }
}

} // verus!
