//! What the library is browsed by: which folders and episodes are new, what a show's
//! details tell, and how the next round is shown.

use vstd::prelude::*;
use vstd::utf8::*;

use crate::catalog;
use crate::catalog::{Directory, DirectoryView, FolderView};
use crate::engine;
use crate::json;
use crate::json::JsonView;
use crate::library;
use crate::outcomes;
use crate::replica;
use crate::rounds;
use crate::sorting;
use crate::tables;
use crate::text;

verus! {

// ── what is new ─────────────────────────────────────────────────────────

/// Whether a folder is a show's: by the names where the disk knows both, and
/// otherwise by the paths.
pub open spec fn is_folder_of(show: FolderView, folder: FolderView) -> bool {
    if show.name is Some && folder.name is Some {
        show.name->0 == folder.name->0
    } else {
        show.path == folder.path
    }
}

/// The folders that are told as not added are those that are no show's, in their
/// order.
pub proof fn law_unadded_folders(folders: Seq<FolderView>, shows: Seq<FolderView>)
    ensures
        catalog::unadded_among(folders, shows) == folders.filter(
            |f: FolderView|
                forall|k: int| 0 <= k < shows.len() ==> !is_folder_of(#[trigger] shows[k], f),
        ).map_values(|f: FolderView| f.path),
    decreases folders.len(),
{
    reveal(Seq::filter);
    let is_new = |f: FolderView|
        forall|k: int| 0 <= k < shows.len() ==> !is_folder_of(#[trigger] shows[k], f);
    let path = |f: FolderView| f.path;
    if folders.len() > 0 {
        let front = folders.drop_last();
        law_unadded_folders(front, shows);
        let f = folders.last();
        if exists|k: int| 0 <= k < shows.len() && catalog::same_folder(#[trigger] shows[k], f) {
            let k = choose|k: int|
                0 <= k < shows.len() && catalog::same_folder(#[trigger] shows[k], f);
            assert(is_folder_of(shows[k], f));
            assert(!is_new(f));
        } else {
            assert(is_new(f)) by {
                assert forall|k: int| 0 <= k < shows.len() implies !is_folder_of(
                    #[trigger] shows[k],
                    f,
                ) by {
                    assert(!catalog::same_folder(shows[k], f));
                }
            }
            assert(folders.filter(is_new) == front.filter(is_new).push(f));
            assert(folders.filter(is_new).map_values(path) =~= front.filter(is_new).map_values(
                path,
            ).push(f.path));
        }
    } else {
        assert(folders.filter(is_new).map_values(path) =~= Seq::empty());
    }
}

/// Whether the show of an id has an episode at a path.
pub open spec fn has_path(
    rows: Seq<tables::EpisodeRowView>,
    show_id: Seq<char>,
    path: Seq<char>,
) -> bool {
    exists|e: int|
        0 <= e < rows.len() && (#[trigger] rows[e]).show_id == show_id && rows[e].relative_path
            == path
}

proof fn lemma_known_paths(rows: Seq<tables::EpisodeRowView>, show_id: Seq<char>, path: Seq<char>)
    ensures
        library::paths_in(rows, show_id).contains(path) <==> has_path(rows, show_id, path),
    decreases rows.len(),
{
    if rows.len() > 0 {
        let front = rows.drop_last();
        let n = rows.len() - 1;
        let before = library::paths_in(front, show_id);
        lemma_known_paths(front, show_id, path);
        vstd::seq_lib::lemma_seq_contains_after_push(before, rows.last().relative_path, path);
        assert(rows[n] == rows.last());
        if has_path(front, show_id, path) {
            let e = choose|e: int|
                0 <= e < front.len() && (#[trigger] front[e]).show_id == show_id
                    && front[e].relative_path == path;
            assert(rows[e] == front[e]);
        }
        if has_path(rows, show_id, path) {
            let e = choose|e: int|
                0 <= e < rows.len() && (#[trigger] rows[e]).show_id == show_id
                    && rows[e].relative_path == path;
            if e < n {
                assert(front[e] == rows[e]);
            }
        }
    }
}

/// The paths of a scan that are new to a show are those at which it has no episode,
/// in the order of the scan.
pub proof fn law_new_paths_of_a_scan(
    rows: Seq<tables::EpisodeRowView>,
    show_id: Seq<char>,
    paths: Seq<Seq<char>>,
)
    ensures
        library::unknown_paths(paths, library::paths_in(rows, show_id)) == paths.filter(
            |p: Seq<char>| !has_path(rows, show_id, p),
        ),
    decreases paths.len(),
{
    reveal(Seq::filter);
    if paths.len() > 0 {
        law_new_paths_of_a_scan(rows, show_id, paths.drop_last());
        lemma_known_paths(rows, show_id, paths.last());
    }
}

/// The files of a scan that are new to a show, in the order of the scan.
pub open spec fn new_files(
    v: replica::LibraryView,
    s: engine::ShowView,
    scan: Seq<Seq<char>>,
) -> Seq<Seq<char>> {
    scan.filter(|p: Seq<char>| !has_path(v.episodes, s.id, p))
}

proof fn lemma_new_names_differ()
    ensures
        "show_id"@.len() == 7,
        "show_name"@.len() == 9,
        "new_episodes"@.len() == 12,
{
    reveal_strlit("show_id");
    reveal_strlit("show_name");
    reveal_strlit("new_episodes");
}

/// A show with new files is told with exactly those, and a show without any is not
/// told of.
pub proof fn law_shows_with_new_files(
    v: replica::LibraryView,
    shows: Seq<engine::ShowView>,
    scans: Seq<Seq<Seq<char>>>,
    i: int,
    k: int,
)
    requires
        shows.len() <= scans.len(),
    ensures
        ({
            let told = catalog::shows_with_new(v, shows, scans);
            &&& told.len() <= shows.len()
            &&& 0 <= i < shows.len() && new_files(v, shows[i], scans[i]).len() > 0 ==> exists|m: int|
                0 <= m < told.len() && is_told_of(#[trigger] told[m], v, shows[i], scans[i])
            &&& 0 <= k < told.len() ==> exists|m: int|
                0 <= m < shows.len() && (#[trigger] new_files(v, shows[m], scans[m])).len() > 0 && is_told_of(told[k], v, shows[m], scans[m])
        }),
    decreases shows.len(),
{
    lemma_new_names_differ();
    if shows.len() > 0 {
        let front = shows.drop_last();
        let n = shows.len() - 1;
        let s = shows.last();
        let before = catalog::shows_with_new(v, front, scans);
        let told = catalog::shows_with_new(v, shows, scans);
        law_shows_with_new_files(v, front, scans, i, k);
        law_new_paths_of_a_scan(v.episodes, s.id, scans[n]);
        let fresh = new_files(v, s, scans[n]);
        assert(shows[n] == s);
        if fresh.len() > 0 {
            assert(told == before.push(catalog::new_episodes_record(s, fresh)));
            assert(is_told_of(told[before.len() as int], v, shows[n], scans[n]));
        }
        if 0 <= i < n && new_files(v, shows[i], scans[i]).len() > 0 {
            assert(front[i] == shows[i]);
            let m = choose|m: int|
                0 <= m < before.len() && is_told_of(#[trigger] before[m], v, front[i], scans[i]);
            assert(told[m] == before[m]);
        }
        if 0 <= k < before.len() {
            assert(told[k] == before[k]);
            let m = choose|m: int|
                0 <= m < front.len() && (#[trigger] new_files(v, front[m], scans[m])).len() > 0 && is_told_of(before[k], v, front[m], scans[m]);
            assert(front[m] == shows[m]);
            assert(new_files(v, shows[m], scans[m]).len() > 0);
        } else if 0 <= k < told.len() {
            assert(new_files(v, shows[n], scans[n]).len() > 0);
        }
    }
}

/// Whether a record tells a show and the files that are new to it.
pub open spec fn is_told_of(
    told: JsonView,
    v: replica::LibraryView,
    s: engine::ShowView,
    scan: Seq<Seq<char>>,
) -> bool {
    let fresh = new_files(v, s, scan);
    &&& json::field(told, "show_id"@) == Some(JsonView::Text(s.id))
    &&& json::field(told, "show_name"@) == Some(JsonView::Text(s.name))
    &&& json::field(told, "new_episodes"@) == Some(
        JsonView::List(fresh.map_values(|p: Seq<char>| JsonView::Text(p))),
    )
}

// ── adding and rescanning ───────────────────────────────────────────────

/// A show is added if and only if it has a name and a folder and videos were found
/// there; what is refused is a bad request.
pub proof fn law_what_can_be_added(
    name: Seq<char>,
    root_path: Seq<char>,
    found: Seq<Seq<char>>,
)
    ensures
        ({
            let refusal = catalog::add_refusal(name, root_path, found);
            &&& refusal is None <==> name.len() > 0 && root_path.len() > 0 && found.len() > 0
            &&& refusal matches Some(r) ==> r.code == 400
        }),
{
}

/// A rescan that marks what it adds marks exactly what it adds: without the marking
/// it is the plain rescan, and so it is where nothing is added.
pub proof fn law_rescan_marks_what_it_adds(
    v: replica::LibraryView,
    show_id: Seq<char>,
    found: Seq<Seq<char>>,
    now: Seq<char>,
    ids: Seq<Seq<char>>,
    later: Seq<char>,
    plays: Seq<Seq<char>>,
    id: Seq<char>,
)
    requires
        found.len() <= ids.len(),
    ensures
        ({
            let fresh = found.filter(|p: Seq<char>| !has_path(v.episodes, show_id, p));
            let plain = library::rescanned(v, show_id, found, now, ids);
            let marked = catalog::after_rescan(v, show_id, found, true, now, ids, later, plays);
            let given = catalog::ids_given(v, show_id, found, ids);
            &&& catalog::after_rescan(v, show_id, found, false, now, ids, later, plays) == plain
            &&& fresh.len() == 0 ==> marked == plain
            &&& fresh.len() > 0 ==> marked == library::all_picked_marked(
                plain,
                show_id,
                given,
                later,
                plays,
            )
            &&& given.len() == fresh.len()
            &&& given.contains(id) <==> exists|e: int|
                v.episodes.len() <= e < plain.episodes.len() && (
                #[trigger] plain.episodes[e]).id == id
        }),
{
    law_new_paths_of_a_scan(v.episodes, show_id, found);
    let fresh = library::unknown_paths(found, library::paths_in(v.episodes, show_id));
    lemma_no_more_than_found(found, library::paths_in(v.episodes, show_id));
    let plain = library::rescanned(v, show_id, found, now, ids);
    let given = catalog::ids_given(v, show_id, found, ids);
    let n = v.episodes.len() as int;
    if given.contains(id) {
        let k = choose|k: int| 0 <= k < given.len() && given[k] == id;
        assert(plain.episodes[n + k].id == id);
    }
    if exists|e: int|
        n <= e < plain.episodes.len() && (#[trigger] plain.episodes[e]).id == id {
        let e = choose|e: int|
            n <= e < plain.episodes.len() && (#[trigger] plain.episodes[e]).id == id;
        assert(given[e - n] == id);
    }
}

proof fn lemma_no_more_than_found(paths: Seq<Seq<char>>, known: Seq<Seq<char>>)
    ensures
        library::unknown_paths(paths, known).len() <= paths.len(),
    decreases paths.len(),
{
    if paths.len() > 0 {
        lemma_no_more_than_found(paths.drop_last(), known);
    }
}

// ── the details of a show ───────────────────────────────────────────────

/// The previous episodes of a show are the watched ones, and the upcoming ones are the
/// unwatched but for the next; both stand in the order of the show.
pub proof fn law_previous_and_upcoming(
    eps: Seq<engine::EpisodeView>,
    resumes: Seq<JsonView>,
    next: Option<Seq<char>>,
)
    requires
        resumes.len() == eps.len(),
    ensures
        ({
            let all = Seq::new(eps.len(), |i: int| (eps[i], resumes[i]));
            let record = |p: (engine::EpisodeView, JsonView)| catalog::episode_record(p.0, p.1);
            &&& catalog::previous_among(eps, resumes) == all.filter(
                |p: (engine::EpisodeView, JsonView)| p.0.watched_at is Some,
            ).map_values(record)
            &&& catalog::upcoming_among(eps, resumes, next) == all.filter(
                |p: (engine::EpisodeView, JsonView)|
                    p.0.watched_at is None && next != Some(p.0.id),
            ).map_values(record)
        }),
{
    lemma_previous_and_upcoming(eps, resumes, next);
}

proof fn lemma_previous_and_upcoming(
    eps: Seq<engine::EpisodeView>,
    resumes: Seq<JsonView>,
    next: Option<Seq<char>>,
)
    requires
        eps.len() <= resumes.len(),
    ensures
        ({
            let all = Seq::new(eps.len(), |i: int| (eps[i], resumes[i]));
            let record = |p: (engine::EpisodeView, JsonView)| catalog::episode_record(p.0, p.1);
            &&& catalog::previous_among(eps, resumes) == all.filter(
                |p: (engine::EpisodeView, JsonView)| p.0.watched_at is Some,
            ).map_values(record)
            &&& catalog::upcoming_among(eps, resumes, next) == all.filter(
                |p: (engine::EpisodeView, JsonView)|
                    p.0.watched_at is None && next != Some(p.0.id),
            ).map_values(record)
        }),
    decreases eps.len(),
{
    reveal(Seq::filter);
    let all = Seq::new(eps.len(), |i: int| (eps[i], resumes[i]));
    let record = |p: (engine::EpisodeView, JsonView)| catalog::episode_record(p.0, p.1);
    let gone = |p: (engine::EpisodeView, JsonView)| p.0.watched_at is Some;
    let left = |p: (engine::EpisodeView, JsonView)|
        p.0.watched_at is None && next != Some(p.0.id);
    if eps.len() > 0 {
        let front = eps.drop_last();
        lemma_previous_and_upcoming(front, resumes, next);
        let before = Seq::new(front.len(), |i: int| (front[i], resumes[i]));
        let last = (eps.last(), resumes[eps.len() - 1]);
        assert(all.drop_last() =~= before);
        assert(all.last() == last);
        if gone(last) {
            assert(all.filter(gone).map_values(record) =~= before.filter(gone).map_values(
                record,
            ).push(record(last)));
        }
        if left(last) {
            assert(all.filter(left).map_values(record) =~= before.filter(left).map_values(
                record,
            ).push(record(last)));
        }
    } else {
        assert(all.filter(gone).map_values(record) =~= Seq::empty());
        assert(all.filter(left).map_values(record) =~= Seq::empty());
    }
}

// ── the next round ──────────────────────────────────────────────────────

proof fn lemma_next_names_differ()
    ensures
        "show_id"@.len() == 7,
        "show_name"@.len() == 9,
        "episode_id"@.len() == 10,
        "relative_path"@.len() == 13,
{
    reveal_strlit("show_id");
    reveal_strlit("show_name");
    reveal_strlit("episode_id");
    reveal_strlit("relative_path");
}

/// The next round is shown as it would be picked from the active shows of the one
/// playlist, in its order, each entry with its show, its episode and its path.
pub proof fn law_next_round_is_shown(v: replica::LibraryView, i: int, s: int)
    requires
        v.well_formed(),
    ensures
        ({
            let round = engine::round_of_shows(
                replica::active_among(v, v.shows, seq!["nelson"@]),
            );
            json::field(
                catalog::next_round_record(v),
                "next_round"@,
            ) matches Some(JsonView::List(told)) && told.len() == round.len() && (0 <= i
                < round.len() ==> {
                &&& json::field(told[i], "show_id"@) == Some(JsonView::Text(round[i].show_id))
                &&& json::field(told[i], "episode_id"@) == Some(
                    JsonView::Text(round[i].episode_id),
                )
                &&& json::field(told[i], "relative_path"@) == Some(
                    JsonView::Text(round[i].absolute_path),
                )
                &&& 0 <= s < v.shows.len() && v.shows[s].id == round[i].show_id ==> json::field(
                    told[i],
                    "show_name"@,
                ) == Some(JsonView::Text(v.shows[s].name))
            })
        }),
{
    lemma_next_names_differ();
    let playlists = seq!["nelson"@];
    let shows = replica::active_among(v, v.shows, playlists);
    let round = engine::round_of_shows(shows);
    rounds::lemma_active_distinct(v, v.shows, playlists);
    if 0 <= i < round.len() {
        rounds::lemma_order_resolves(shows, i);
        let k = rounds::show_named(shows, round[i].show_id)->0;
        rounds::lemma_active_row(v, v.shows, playlists, k);
        let r = choose|r: int|
            0 <= r < v.shows.len() && shows[k] == replica::assembled(v, #[trigger] v.shows[r]);
        if 0 <= s < v.shows.len() && v.shows[s].id == round[i].show_id {
            if r < s {
                assert(v.shows[r].id != v.shows[s].id);
            } else if s < r {
                assert(v.shows[s].id != v.shows[r].id);
            }
        }
    }
}

// ── folders ─────────────────────────────────────────────────────────────

/// Folders are listed in the order of their names in lower case, none left out.
pub proof fn law_folders_stand_by_name(found: Seq<(Seq<char>, Seq<char>)>, i: int, j: int)
    requires
        0 <= i < j < sorting::in_order::<Directory>(catalog::keyed(found)).len(),
    ensures
        ({
            let told = sorting::in_order::<Directory>(catalog::keyed(found));
            &&& told.len() == found.len()
            &&& outcomes::bytes_not_behind(
                encode_utf8(text::lowercase(told[i].name)),
                encode_utf8(text::lowercase(told[j].name)),
            )
        }),
{
    let all = catalog::keyed(found);
    let told = sorting::in_order::<Directory>(all);
    sorting::lemma_in_order::<Directory>(all);
    assert(<Directory as sorting::Sortable>::leq(told[i], told[j]));
    lemma_directory_key(found, told[i]);
    lemma_directory_key(found, told[j]);
    assert(told.contains(told[i]));
    assert(told.contains(told[j]));
    outcomes::lemma_bytes_not_behind(
        encode_utf8(text::lowercase(told[i].name)),
        encode_utf8(text::lowercase(told[j].name)),
    );
}

proof fn lemma_directory_key(found: Seq<(Seq<char>, Seq<char>)>, d: DirectoryView)
    ensures
        catalog::keyed(found).contains(d) ==> d.key == text::lowercase(d.name) && found.contains(
            (d.name, d.path),
        ),
{
    let all = catalog::keyed(found);
    if all.contains(d) {
        let k = choose|k: int| 0 <= k < all.len() && all[k] == d;
        assert(found[k] == (d.name, d.path));
    }
}

} // verus!
