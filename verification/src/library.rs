//! Managing the shows of the library: adding, editing, removing and rescanning
//! them, and marking whole shows watched or unwatched.

use vstd::prelude::*;

use crate::clock;
use crate::engine;
use crate::engine::HistoryRow;
use crate::replica;
use crate::replica::Replica;
use crate::tables;
use crate::tables::{EpisodeRow, HistoryEntry, Keyed, ShowRow};
use crate::text;

verus! {

// ── adding ──────────────────────────────────────────────────────────────

/// The rows of new episodes: the paths in order, numbered from `first`.
pub open spec fn new_rows(
    show_id: Seq<char>,
    paths: Seq<Seq<char>>,
    first: int,
    now: Seq<char>,
    ids: Seq<Seq<char>>,
) -> Seq<tables::EpisodeRowView> {
    Seq::new(
        paths.len(),
        |i: int|
            tables::EpisodeRowView {
                id: ids[i],
                show_id,
                relative_path: paths[i],
                position: (first + i) as i64,
                watched_at: None,
                resume_pos: None,
                updated_at: now,
            },
    )
}

/// The ids are new to the episode table, and no two of them alike.
pub open spec fn fresh_episode_ids(v: replica::LibraryView, ids: Seq<Seq<char>>) -> bool {
    &&& ids.no_duplicates()
    &&& forall|i: int|
        0 <= i < ids.len() ==> tables::place::<EpisodeRow>(v.episodes, #[trigger] ids[i]) is None
}

/// Whether a drawn id, which has thirty-six characters, can be that of a show
/// already.
pub open spec fn drawn_show_id_can_clash(v: replica::LibraryView) -> bool {
    exists|i: int| 0 <= i < v.shows.len() && (#[trigger] v.shows[i]).id.len() == 36
}

/// Whether drawn ids, which have thirty-six characters each, can be those of
/// episodes already, or alike.
pub open spec fn drawn_ids_can_clash(v: replica::LibraryView, count: nat) -> bool {
    ||| count > 1
    ||| count == 1 && exists|i: int|
        0 <= i < v.episodes.len() && (#[trigger] v.episodes[i]).id.len() == 36
}

proof fn lemma_drawn_show_id(v: replica::LibraryView, id: Seq<char>)
    requires
        id.len() == 36,
        tables::place::<ShowRow>(v.shows, id) is Some,
    ensures
        drawn_show_id_can_clash(v),
{
    tables::lemma_place::<ShowRow>(v.shows, id);
    assert(v.shows[tables::place::<ShowRow>(v.shows, id)->0].id.len() == 36);
}

proof fn lemma_drawn_ids(v: replica::LibraryView, ids: Seq<Seq<char>>)
    requires
        forall|i: int| 0 <= i < ids.len() ==> (#[trigger] ids[i]).len() == 36,
        !fresh_episode_ids(v, ids),
    ensures
        drawn_ids_can_clash(v, ids.len()),
{
    if ids.len() <= 1 {
        assert(ids.no_duplicates());
        let i = choose|i: int|
            0 <= i < ids.len() && tables::place::<EpisodeRow>(v.episodes, #[trigger] ids[i]) is Some;
        tables::lemma_place::<EpisodeRow>(v.episodes, ids[i]);
        let k = tables::place::<EpisodeRow>(v.episodes, ids[i])->0;
        assert(v.episodes[k].id.len() == 36);
    }
}

/// Where drawn episode ids are not fresh, they could clash.
pub(crate) proof fn lemma_drawn_for_episodes(v: replica::LibraryView, ids: Vec<String>)
    requires
        forall|i: int| 0 <= i < ids@.len() ==> (#[trigger] ids@[i])@.len() == 36,
    ensures
        !fresh_episode_ids(v, ids.deep_view()) ==> drawn_ids_can_clash(v, ids@.len()),
{
    let idv = ids.deep_view();
    assert forall|i: int| 0 <= i < idv.len() implies (#[trigger] idv[i]).len() == 36 by {
        assert(idv[i] == ids@[i]@);
    }
    if !fresh_episode_ids(v, idv) {
        lemma_drawn_ids(v, idv);
    }
}

/// Where the drawn ids of a show and its episodes are not free, they could clash.
pub(crate) proof fn lemma_drawn_for_show(
    v: replica::LibraryView,
    show_id: Seq<char>,
    ids: Vec<String>,
)
    requires
        show_id.len() == 36,
        forall|i: int| 0 <= i < ids@.len() ==> (#[trigger] ids@[i])@.len() == 36,
    ensures
        tables::place::<ShowRow>(v.shows, show_id) is Some ==> drawn_show_id_can_clash(v),
        !fresh_episode_ids(v, ids.deep_view()) ==> drawn_ids_can_clash(v, ids@.len()),
{
    if tables::place::<ShowRow>(v.shows, show_id) is Some {
        lemma_drawn_show_id(v, show_id);
    }
    lemma_drawn_for_episodes(v, ids);
}

pub open spec fn show_added(
    v: replica::LibraryView,
    playlist: Seq<char>,
    name: Seq<char>,
    root_path: Seq<char>,
    paths: Seq<Seq<char>>,
    now: Seq<char>,
    show_id: Seq<char>,
    ids: Seq<Seq<char>>,
) -> replica::LibraryView {
    replica::LibraryView {
        shows: v.shows.push(
            tables::ShowRowView {
                id: show_id,
                playlist,
                name,
                root_path,
                date_added: Some(now),
                removed_at: None,
                updated_at: now,
            },
        ),
        episodes: v.episodes + new_rows(show_id, paths, 0, now, ids),
        ..v.touched(1 + paths.len())
    }
}

// ── editing ─────────────────────────────────────────────────────────────

pub open spec fn or_kept(new: Option<Seq<char>>, old_value: Seq<char>) -> Seq<char> {
    match new {
        Some(x) => x,
        None => old_value,
    }
}

pub open spec fn rows_edited(
    rows: Seq<tables::ShowRowView>,
    id: Seq<char>,
    name: Option<Seq<char>>,
    root_path: Option<Seq<char>>,
    playlist: Option<Seq<char>>,
    now: Seq<char>,
) -> Seq<tables::ShowRowView> {
    Seq::new(
        rows.len(),
        |i: int|
            if rows[i].id == id {
                tables::ShowRowView {
                    name: or_kept(name, rows[i].name),
                    root_path: or_kept(root_path, rows[i].root_path),
                    playlist: or_kept(playlist, rows[i].playlist),
                    updated_at: now,
                    ..rows[i]
                }
            } else {
                rows[i]
            },
    )
}

/// The library after a show was edited; with nothing to edit, as it was.
pub open spec fn show_edited(
    v: replica::LibraryView,
    id: Seq<char>,
    name: Option<Seq<char>>,
    root_path: Option<Seq<char>>,
    playlist: Option<Seq<char>>,
    now: Seq<char>,
) -> replica::LibraryView {
    if name is None && root_path is None && playlist is None {
        v
    } else {
        replica::LibraryView {
            shows: rows_edited(v.shows, id, name, root_path, playlist, now),
            ..v.touched(tables::hits::<ShowRow>(v.shows, id))
        }
    }
}

// ── marking whole shows ─────────────────────────────────────────────────

/// One play for each unwatched episode of a show, as the table lists them.
pub open spec fn unwatched_plays(
    rows: Seq<tables::EpisodeRowView>,
    show_id: Seq<char>,
    now: Seq<char>,
) -> Seq<engine::HistoryRowView>
    decreases rows.len(),
{
    if rows.len() == 0 {
        Seq::empty()
    } else if rows.last().show_id == show_id && rows.last().watched_at is None {
        unwatched_plays(rows.drop_last(), show_id, now).push(
            engine::HistoryRowView {
                show_id,
                episode_id: rows.last().id,
                relative_path: rows.last().relative_path,
                played_at: now,
            },
        )
    } else {
        unwatched_plays(rows.drop_last(), show_id, now)
    }
}

pub open spec fn show_watched(
    v: replica::LibraryView,
    show_id: Seq<char>,
    now: Seq<char>,
    ids: Seq<Seq<char>>,
) -> replica::LibraryView {
    replica::retired(
        replica::plays_stored(v, unwatched_plays(v.episodes, show_id, now), now, ids, false),
        show_id,
        Some(now),
        now,
    )
}

pub open spec fn rows_reset(
    rows: Seq<tables::EpisodeRowView>,
    show_id: Seq<char>,
    now: Seq<char>,
) -> Seq<tables::EpisodeRowView> {
    Seq::new(
        rows.len(),
        |i: int|
            if rows[i].show_id == show_id {
                tables::EpisodeRowView {
                    watched_at: None,
                    resume_pos: None,
                    updated_at: now,
                    ..rows[i]
                }
            } else {
                rows[i]
            },
    )
}

/// How many episodes the show has.
pub open spec fn episode_count(rows: Seq<tables::EpisodeRowView>, show_id: Seq<char>) -> nat
    decreases rows.len(),
{
    if rows.len() == 0 {
        0
    } else {
        episode_count(rows.drop_last(), show_id) + if rows.last().show_id == show_id {
            1nat
        } else {
            0nat
        }
    }
}

/// The watch history without the plays of a show.
pub open spec fn history_without(
    rows: Seq<tables::HistoryEntryView>,
    show_id: Seq<char>,
) -> Seq<tables::HistoryEntryView>
    decreases rows.len(),
{
    if rows.len() == 0 {
        rows
    } else if rows.last().show_id == show_id {
        history_without(rows.drop_last(), show_id)
    } else {
        history_without(rows.drop_last(), show_id).push(rows.last())
    }
}

pub open spec fn show_unwatched(
    v: replica::LibraryView,
    show_id: Seq<char>,
    now: Seq<char>,
) -> replica::LibraryView {
    let w = replica::retired(v, show_id, None, now);
    let kept = history_without(v.history, show_id);
    replica::LibraryView {
        episodes: rows_reset(v.episodes, show_id, now),
        history: kept,
        ..w.touched(episode_count(v.episodes, show_id)).touched(
            (v.history.len() - kept.len()) as nat,
        )
    }
}

proof fn lemma_history_without(rows: Seq<tables::HistoryEntryView>, show_id: Seq<char>)
    ensures
        history_without(rows, show_id).len() <= rows.len(),
    decreases rows.len(),
{
    if rows.len() > 0 {
        lemma_history_without(rows.drop_last(), show_id);
    }
}

/// The library after one episode was marked watched by hand. An id that no
/// episode has, or whose episode has no path, is passed over.
pub open spec fn picked_marked(
    v: replica::LibraryView,
    show_id: Seq<char>,
    episode_id: Seq<char>,
    now: Seq<char>,
    history_id: Seq<char>,
) -> replica::LibraryView {
    match tables::place::<EpisodeRow>(v.episodes, episode_id) {
        Some(i) => if v.episodes[i].relative_path.len() == 0 {
            v
        } else {
            replica::play_recorded(
                replica::episode_marked(v, episode_id, now, false),
                tables::HistoryEntryView {
                    id: history_id,
                    show_id,
                    episode_id,
                    relative_path: Some(v.episodes[i].relative_path),
                    played_at: now,
                },
            )
        },
        None => v,
    }
}

pub open spec fn all_picked_marked(
    v: replica::LibraryView,
    show_id: Seq<char>,
    episode_ids: Seq<Seq<char>>,
    now: Seq<char>,
    ids: Seq<Seq<char>>,
) -> replica::LibraryView
    decreases episode_ids.len(),
{
    if episode_ids.len() == 0 {
        v
    } else {
        picked_marked(
            all_picked_marked(v, show_id, episode_ids.drop_last(), now, ids),
            show_id,
            episode_ids.last(),
            now,
            ids[episode_ids.len() - 1],
        )
    }
}

// ── rescanning ──────────────────────────────────────────────────────────

/// The paths of a show's episodes, as the table lists them.
pub open spec fn paths_in(rows: Seq<tables::EpisodeRowView>, show_id: Seq<char>) -> Seq<Seq<char>>
    decreases rows.len(),
{
    if rows.len() == 0 {
        Seq::empty()
    } else if rows.last().show_id == show_id {
        paths_in(rows.drop_last(), show_id).push(rows.last().relative_path)
    } else {
        paths_in(rows.drop_last(), show_id)
    }
}

/// The paths that are not among the known ones, in order.
pub open spec fn unknown_paths(paths: Seq<Seq<char>>, known: Seq<Seq<char>>) -> Seq<Seq<char>>
    decreases paths.len(),
{
    if paths.len() == 0 {
        Seq::empty()
    } else if known.contains(paths.last()) {
        unknown_paths(paths.drop_last(), known)
    } else {
        unknown_paths(paths.drop_last(), known).push(paths.last())
    }
}

/// The first position behind all of the show's episodes: zero where it has none.
pub open spec fn position_behind(rows: Seq<tables::EpisodeRowView>, show_id: Seq<char>) -> int
    decreases rows.len(),
{
    if rows.len() == 0 {
        0
    } else {
        let p = position_behind(rows.drop_last(), show_id);
        if rows.last().show_id == show_id && (rows.last().position >= p || episode_count(
            rows.drop_last(),
            show_id,
        ) == 0) {
            rows.last().position + 1
        } else {
            p
        }
    }
}

/// The library after a rescan: the episodes that the show had stay as they are,
/// and new ones come behind all of them.
pub open spec fn rescanned(
    v: replica::LibraryView,
    show_id: Seq<char>,
    paths: Seq<Seq<char>>,
    now: Seq<char>,
    ids: Seq<Seq<char>>,
) -> replica::LibraryView {
    let added = unknown_paths(paths, paths_in(v.episodes, show_id));
    replica::LibraryView {
        episodes: v.episodes + new_rows(
            show_id,
            added,
            position_behind(v.episodes, show_id),
            now,
            ids,
        ),
        ..v.touched(added.len())
    }
}

/// Whether the new episodes of a rescan have positions to go to.
pub open spec fn rescan_fits(
    v: replica::LibraryView,
    show_id: Seq<char>,
    paths: Seq<Seq<char>>,
) -> bool {
    let added = unknown_paths(paths, paths_in(v.episodes, show_id));
    added.len() == 0 || position_behind(v.episodes, show_id) + added.len() - 1 <= i64::MAX
}

proof fn lemma_unknown_count(paths: Seq<Seq<char>>, known: Seq<Seq<char>>)
    ensures
        unknown_paths(paths, known).len() <= paths.len(),
    decreases paths.len(),
{
    if paths.len() > 0 {
        lemma_unknown_count(paths.drop_last(), known);
    }
}

fn has_fresh_ids(library: &Replica, ids: &[String]) -> (r: bool)
    ensures
        r == fresh_episode_ids(library.deep_view(), ids.deep_view()),
{
    let ghost idv = ids.deep_view();
    let mut i: usize = 0;
    while i < ids.len()
        invariant
            i <= ids@.len(),
            idv == ids.deep_view(),
            forall|j: int, k: int| 0 <= j < i && 0 <= k < i && j != k ==> idv[j] != idv[k],
            forall|j: int|
                0 <= j < i ==> tables::place::<EpisodeRow>(
                    library.deep_view().episodes,
                    #[trigger] idv[j],
                ) is None,
        decreases ids.len() - i,
    {
        assert(idv[i as int] == ids@[i as int]@);
        if tables::find(&library.episodes, ids[i].as_str()).is_some() {
            return false;
        }
        let mut k: usize = 0;
        while k < i
            invariant
                k <= i < ids@.len(),
                idv == ids.deep_view(),
                forall|j: int| 0 <= j < k ==> idv[j] != idv[i as int],
            decreases i - k,
        {
            assert(idv[k as int] == ids@[k as int]@);
            assert(idv[i as int] == ids@[i as int]@);
            if ids[k] == ids[i] {
                assert(!idv.no_duplicates());
                return false;
            }
            k = k + 1;
        }
        i = i + 1;
    }
    true
}

impl Replica {
    fn append_episodes(
        &mut self,
        show_id: &str,
        paths: &[String],
        first: i64,
        now: &str,
        ids: &[String],
    )
        requires
            paths@.len() <= ids@.len(),
            paths@.len() <= i64::MAX,
            paths@.len() == 0 || first + paths@.len() - 1 <= i64::MAX,
        ensures
            final(self).deep_view() == (replica::LibraryView {
                episodes: old(self).deep_view().episodes + new_rows(
                    show_id@,
                    paths.deep_view(),
                    first as int,
                    now@,
                    ids.deep_view(),
                ),
                ..old(self).deep_view()
            }),
            *final(self) == (Replica { episodes: final(self).episodes, ..*old(self) }),
    {
        let ghost v = self.deep_view();
        let ghost rows = new_rows(
            show_id@,
            paths.deep_view(),
            first as int,
            now@,
            ids.deep_view(),
        );
        let mut i: usize = 0;
        assert(v.episodes + rows.take(0) =~= v.episodes);
        while i < paths.len()
            invariant
                i <= paths@.len() <= ids@.len(),
                paths@.len() <= i64::MAX,
                paths@.len() == 0 || first + paths@.len() - 1 <= i64::MAX,
                rows == new_rows(
                    show_id@,
                    paths.deep_view(),
                    first as int,
                    now@,
                    ids.deep_view(),
                ),
                self.deep_view() == (replica::LibraryView {
                    episodes: v.episodes + rows.take(i as int),
                    ..v
                }),
                *self == (Replica { episodes: self.episodes, ..*old(self) }),
            decreases paths.len() - i,
        {
            let row = EpisodeRow {
                id: ids[i].clone(),
                show_id: show_id.to_owned(),
                relative_path: paths[i].clone(),
                position: first + i as i64,
                watched_at: None,
                resume_pos: None,
                updated_at: now.to_owned(),
            };
            let ghost before = self.episodes.deep_view();
            self.episodes.push(row);
            proof {
                assert(row.deep_view() == rows[i as int]);
                assert(self.episodes.deep_view() =~= before.push(rows[i as int]));
                assert(before.push(rows[i as int]) =~= v.episodes + rows.take(i + 1));
            }
            i = i + 1;
        }
        assert(rows.take(i as int) =~= rows);
    }

    /// Adds a show with its episodes in order, all unwatched, under ids that are
    /// new to the library.
    pub fn create_show_at(
        &mut self,
        playlist: &str,
        name: &str,
        root_path: &str,
        episodes: &[String],
        now: &str,
        show_id: &str,
        ids: &[String],
    )
        requires
            episodes@.len() <= ids@.len(),
            episodes@.len() <= i64::MAX,
        ensures
            final(self).deep_view() == show_added(
                old(self).deep_view(),
                playlist@,
                name@,
                root_path@,
                episodes.deep_view(),
                now@,
                show_id@,
                ids.deep_view(),
            ),
    {
        let ghost v = self.deep_view();
        let row = ShowRow {
            id: show_id.to_owned(),
            playlist: playlist.to_owned(),
            name: name.to_owned(),
            root_path: root_path.to_owned(),
            date_added: Some(now.to_owned()),
            removed_at: None,
            updated_at: now.to_owned(),
        };
        self.shows.push(row);
        assert(self.shows.deep_view() =~= v.shows.push(row.deep_view()));
        self.append_episodes(show_id, episodes, 0, now, ids);
        self.bump(1);
        self.bump(episodes.len());
    }

    /// Adds a show under ids that were drawn. Where one of them is taken already,
    /// or two are alike, nothing is added. Returns whether the show was added.
    pub fn create_show_if_free(
        &mut self,
        playlist: &str,
        name: &str,
        root_path: &str,
        episodes: &[String],
        now: &str,
        show_id: &str,
        ids: &[String],
    ) -> (r: bool)
        requires
            episodes@.len() <= ids@.len(),
            episodes@.len() <= i64::MAX,
        ensures
            r == (tables::place::<ShowRow>(old(self).deep_view().shows, show_id@) is None
                && fresh_episode_ids(old(self).deep_view(), ids.deep_view())),
            r ==> final(self).deep_view() == show_added(
                old(self).deep_view(),
                playlist@,
                name@,
                root_path@,
                episodes.deep_view(),
                now@,
                show_id@,
                ids.deep_view(),
            ),
            !r ==> *final(self) == *old(self),
    {
        if tables::find(&self.shows, show_id).is_some() || !has_fresh_ids(self, ids) {
            return false;
        }
        self.create_show_at(playlist, name, root_path, episodes, now, show_id, ids);
        true
    }

    /// Adds a show now, and returns its id. The ids of the show and its episodes
    /// are drawn at random; where one drawn is taken already, nothing is added.
    /// That cannot be where the library has no ids of that length and no two are
    /// drawn for episodes. See [`Replica::create_show_if_free`].
    pub fn create_show(
        &mut self,
        playlist: &str,
        name: &str,
        root_path: &str,
        episodes: &[String],
    ) -> (r: Option<String>)
        requires
            episodes@.len() <= i64::MAX,
        ensures
            match r {
                Some(show_id) => {
                    &&& show_id@.len() == 36
                    &&& tables::place::<ShowRow>(old(self).deep_view().shows, show_id@) is None
                    &&& exists|now: Seq<char>, ids: Seq<Seq<char>>|
                        #![trigger show_added(
                            old(self).deep_view(),
                            playlist@,
                            name@,
                            root_path@,
                            episodes.deep_view(),
                            now,
                            show_id@,
                            ids,
                        )]
                        ids.len() == episodes@.len() && fresh_episode_ids(
                            old(self).deep_view(),
                            ids,
                        ) && final(self).deep_view() == show_added(
                            old(self).deep_view(),
                            playlist@,
                            name@,
                            root_path@,
                            episodes.deep_view(),
                            now,
                            show_id@,
                            ids,
                        )
                },
                None => {
                    &&& *final(self) == *old(self)
                    &&& drawn_show_id_can_clash(old(self).deep_view()) || drawn_ids_can_clash(
                        old(self).deep_view(),
                        episodes@.len(),
                    )
                },
            },
    {
        let now = clock::now();
        let show_id = clock::new_id();
        let ids = clock::new_ids(episodes.len());
        proof {
            lemma_drawn_for_show(self.deep_view(), show_id@, ids);
        }
        if self.create_show_if_free(
            playlist,
            name,
            root_path,
            episodes,
            now.as_str(),
            show_id.as_str(),
            ids.as_slice(),
        ) {
            Some(show_id)
        } else {
            None
        }
    }

    /// Sets those of a show's fields that are given. Returns whether there was
    /// anything to set and a show to set it on.
    pub fn update_show_at(
        &mut self,
        show_id: &str,
        name: Option<&str>,
        root_path: Option<&str>,
        playlist: Option<&str>,
        now: &str,
    ) -> (r: bool)
        ensures
            r == ((name is Some || root_path is Some || playlist is Some) && tables::place::<
                ShowRow,
            >(old(self).deep_view().shows, show_id@) is Some),
            final(self).deep_view() == show_edited(
                old(self).deep_view(),
                show_id@,
                name.deep_view(),
                root_path.deep_view(),
                playlist.deep_view(),
                now@,
            ),
    {
        if name.is_none() && root_path.is_none() && playlist.is_none() {
            return false;
        }
        let rows: usize = tables::count_hits(&self.shows, show_id);
        let ghost v = self.deep_view();
        let ghost want = rows_edited(
            v.shows,
            show_id@,
            name.deep_view(),
            root_path.deep_view(),
            playlist.deep_view(),
            now@,
        );
        let mut i: usize = 0;
        while i < self.shows.len()
            invariant
                i <= self.shows@.len(),
                want == rows_edited(
                    v.shows,
                    show_id@,
                    name.deep_view(),
                    root_path.deep_view(),
                    playlist.deep_view(),
                    now@,
                ),
                self.shows@.len() == v.shows.len(),
                forall|j: int| 0 <= j < i ==> (#[trigger] self.shows@[j]).deep_view() == want[j],
                forall|j: int|
                    i <= j < v.shows.len() ==> (#[trigger] self.shows@[j]).deep_view()
                        == v.shows[j],
                self.deep_view() == (replica::LibraryView { shows: self.shows.deep_view(), ..v }),
            decreases self.shows.len() - i,
        {
            assert(self.shows@[i as int].deep_view() == v.shows[i as int]);
            if self.shows[i].has_key(show_id) {
                match name {
                    Some(x) => {
                        self.shows[i].name = x.to_owned();
                    },
                    None => {},
                }
                match root_path {
                    Some(x) => {
                        self.shows[i].root_path = x.to_owned();
                    },
                    None => {},
                }
                match playlist {
                    Some(x) => {
                        self.shows[i].playlist = x.to_owned();
                    },
                    None => {},
                }
                self.shows[i].updated_at = now.to_owned();
            }
            assert(self.shows@[i as int].deep_view() == want[i as int]);
            i = i + 1;
        }
        assert(self.shows.deep_view() =~= want);
        self.bump(rows);
        proof {
            tables::lemma_hits_bound::<ShowRow>(v.shows, show_id@);
        }
        rows > 0
    }

    /// Edits a show now. See [`Replica::update_show_at`].
    pub fn update_show(
        &mut self,
        show_id: &str,
        name: Option<&str>,
        root_path: Option<&str>,
        playlist: Option<&str>,
    ) -> (r: bool)
        ensures
            r == ((name is Some || root_path is Some || playlist is Some) && tables::place::<
                ShowRow,
            >(old(self).deep_view().shows, show_id@) is Some),
            exists|now: Seq<char>|
                final(self).deep_view() == #[trigger] show_edited(
                    old(self).deep_view(),
                    show_id@,
                    name.deep_view(),
                    root_path.deep_view(),
                    playlist.deep_view(),
                    now,
                ),
    {
        let now = clock::now();
        self.update_show_at(show_id, name, root_path, playlist, now.as_str())
    }

    /// Retires a show: its rows stay, the rounds leave it out. Returns whether
    /// there is such a show.
    pub fn remove_show_at(&mut self, show_id: &str, now: &str) -> (r: bool)
        ensures
            r == tables::place::<ShowRow>(old(self).deep_view().shows, show_id@) is Some,
            final(self).deep_view() == replica::retired(
                old(self).deep_view(),
                show_id@,
                Some(now@),
                now@,
            ),
    {
        let found = tables::find(&self.shows, show_id).is_some();
        self.retire(show_id, Some(now), now);
        found
    }

    /// Retires a show now. See [`Replica::remove_show_at`].
    pub fn remove_show(&mut self, show_id: &str) -> (r: bool)
        ensures
            r == tables::place::<ShowRow>(old(self).deep_view().shows, show_id@) is Some,
            exists|now: Seq<char>|
                final(self).deep_view() == #[trigger] replica::retired(
                    old(self).deep_view(),
                    show_id@,
                    Some(now),
                    now,
                ),
    {
        let now = clock::now();
        self.remove_show_at(show_id, now.as_str())
    }

    fn plays_of_unwatched(&self, show_id: &str, now: &str) -> (r: Vec<HistoryRow>)
        ensures
            r.deep_view() == unwatched_plays(self.deep_view().episodes, show_id@, now@),
            r@.len() <= self.episodes@.len(),
    {
        let ghost rows = self.episodes.deep_view();
        let mut out: Vec<HistoryRow> = Vec::new();
        let mut i: usize = 0;
        assert(out.deep_view() =~= unwatched_plays(rows.take(0), show_id@, now@));
        while i < self.episodes.len()
            invariant
                i <= self.episodes@.len(),
                out@.len() <= i,
                rows == self.episodes.deep_view(),
                out.deep_view() == unwatched_plays(rows.take(i as int), show_id@, now@),
            decreases self.episodes.len() - i,
        {
            let e = &self.episodes[i];
            proof {
                assert(rows[i as int] == e.deep_view());
                assert(rows.take(i + 1).drop_last() =~= rows.take(i as int));
                assert(rows.take(i + 1).last() == e.deep_view());
            }
            if text::same_text(e.show_id.as_str(), show_id) && e.watched_at.is_none() {
                let ghost before = out.deep_view();
                let row = HistoryRow {
                    show_id: show_id.to_owned(),
                    episode_id: e.id.clone(),
                    relative_path: e.relative_path.clone(),
                    played_at: now.to_owned(),
                };
                out.push(row);
                assert(out.deep_view() =~= before.push(row.deep_view()));
            }
            i = i + 1;
        }
        assert(rows.take(i as int) =~= rows);
        out
    }

    /// Marks every unwatched episode of a show watched, with a play each, and
    /// retires the show. Returns whether there is such a show.
    pub fn mark_show_watched_at(&mut self, show_id: &str, now: &str, ids: &[String]) -> (r: bool)
        requires
            old(self).episodes@.len() <= ids@.len(),
        ensures
            r == tables::place::<ShowRow>(old(self).deep_view().shows, show_id@) is Some,
            final(self).deep_view() == show_watched(
                old(self).deep_view(),
                show_id@,
                now@,
                ids.deep_view(),
            ),
    {
        let found = tables::find(&self.shows, show_id).is_some();
        let plays = self.plays_of_unwatched(show_id, now);
        assert(ids.deep_view().skip(0) =~= ids.deep_view());
        self.store_plays(&plays, now, ids, 0, false);
        self.retire(show_id, Some(now), now);
        found
    }

    /// Marks a whole show watched now. See [`Replica::mark_show_watched_at`].
    pub fn mark_show_watched(&mut self, show_id: &str) -> (r: bool)
        ensures
            r == tables::place::<ShowRow>(old(self).deep_view().shows, show_id@) is Some,
            exists|now: Seq<char>, ids: Seq<Seq<char>>|
                ids.len() == old(self).episodes@.len() && final(self).deep_view()
                    == #[trigger] show_watched(
                    old(self).deep_view(),
                    show_id@,
                    now,
                    ids,
                ),
    {
        let now = clock::now();
        let ids = clock::new_ids(self.episodes.len());
        self.mark_show_watched_at(show_id, now.as_str(), ids.as_slice())
    }

    /// Marks every episode of a show unwatched, forgets its resume points and its
    /// plays, and takes the show back into the rounds. Returns `true` whether or
    /// not there is such a show.
    pub fn mark_show_unwatched_at(&mut self, show_id: &str, now: &str) -> (r: bool)
        ensures
            r,
            final(self).deep_view() == show_unwatched(old(self).deep_view(), show_id@, now@),
    {
        let ghost v = self.deep_view();
        self.retire(show_id, None, now);
        let ghost w = self.deep_view();
        let ghost want = rows_reset(v.episodes, show_id@, now@);
        let mut rows: usize = 0;
        let mut i: usize = 0;
        while i < self.episodes.len()
            invariant
                i <= self.episodes@.len(),
                rows <= i,
                w.episodes == v.episodes,
                want == rows_reset(v.episodes, show_id@, now@),
                rows == episode_count(v.episodes.take(i as int), show_id@),
                self.episodes@.len() == v.episodes.len(),
                forall|j: int|
                    0 <= j < i ==> (#[trigger] self.episodes@[j]).deep_view() == want[j],
                forall|j: int|
                    i <= j < v.episodes.len() ==> (#[trigger] self.episodes@[j]).deep_view()
                        == v.episodes[j],
                self.deep_view() == (replica::LibraryView {
                    episodes: self.episodes.deep_view(),
                    ..w
                }),
            decreases self.episodes.len() - i,
        {
            proof {
                assert(self.episodes@[i as int].deep_view() == v.episodes[i as int]);
                assert(v.episodes.take(i + 1).drop_last() =~= v.episodes.take(i as int));
            }
            if text::same_text(self.episodes[i].show_id.as_str(), show_id) {
                self.episodes[i].watched_at = None;
                self.episodes[i].resume_pos = None;
                self.episodes[i].updated_at = now.to_owned();
                rows = rows + 1;
            }
            assert(self.episodes@[i as int].deep_view() == want[i as int]);
            i = i + 1;
        }
        proof {
            assert(self.episodes.deep_view() =~= want);
            assert(v.episodes.take(i as int) =~= v.episodes);
        }
        self.bump(rows);
        let ghost x = self.deep_view();
        let mut kept: Vec<HistoryEntry> = Vec::new();
        let mut k: usize = 0;
        assert(kept.deep_view() =~= history_without(x.history.take(0), show_id@));
        while k < self.history.len()
            invariant
                k <= self.history@.len(),
                kept@.len() <= k,
                x.history == self.history.deep_view(),
                kept.deep_view() == history_without(x.history.take(k as int), show_id@),
            decreases self.history.len() - k,
        {
            let h = &self.history[k];
            proof {
                assert(x.history[k as int] == h.deep_view());
                assert(x.history.take(k + 1).drop_last() =~= x.history.take(k as int));
            }
            if !text::same_text(h.show_id.as_str(), show_id) {
                let ghost before = kept.deep_view();
                let row = HistoryEntry {
                    id: h.id.clone(),
                    show_id: h.show_id.clone(),
                    episode_id: h.episode_id.clone(),
                    relative_path: h.relative_path.clone(),
                    played_at: h.played_at.clone(),
                };
                kept.push(row);
                assert(kept.deep_view() =~= before.push(row.deep_view()));
            }
            k = k + 1;
        }
        assert(x.history.take(k as int) =~= x.history);
        let dropped: usize = self.history.len() - kept.len();
        self.history = kept;
        self.bump(dropped);
        true
    }

    /// Marks a whole show unwatched now. See [`Replica::mark_show_unwatched_at`].
    pub fn mark_show_unwatched(&mut self, show_id: &str) -> (r: bool)
        ensures
            r,
            exists|now: Seq<char>|
                final(self).deep_view() == #[trigger] show_unwatched(
                    old(self).deep_view(),
                    show_id@,
                    now,
                ),
    {
        let now = clock::now();
        self.mark_show_unwatched_at(show_id, now.as_str())
    }

    /// Marks the episodes watched, with a play each for the given show, whether
    /// or not they were watched before.
    pub fn mark_episodes_watched_at(
        &mut self,
        show_id: &str,
        episode_ids: &[String],
        now: &str,
        ids: &[String],
    )
        requires
            episode_ids@.len() <= ids@.len(),
        ensures
            final(self).deep_view() == all_picked_marked(
                old(self).deep_view(),
                show_id@,
                episode_ids.deep_view(),
                now@,
                ids.deep_view(),
            ),
    {
        let ghost v = self.deep_view();
        let ghost eids = episode_ids.deep_view();
        let mut i: usize = 0;
        assert(eids.take(0) =~= Seq::empty());
        while i < episode_ids.len()
            invariant
                i <= episode_ids@.len() <= ids@.len(),
                eids == episode_ids.deep_view(),
                self.deep_view() == all_picked_marked(
                    v,
                    show_id@,
                    eids.take(i as int),
                    now@,
                    ids.deep_view(),
                ),
            decreases episode_ids.len() - i,
        {
            let eid = &episode_ids[i];
            let ghost before = self.deep_view();
            proof {
                assert(eids[i as int] == eid@);
                assert(eids.take(i + 1).drop_last() =~= eids.take(i as int));
                assert(eids.take(i + 1).last() == eid@);
                assert(ids.deep_view()[i as int] == ids@[i as int]@);
            }
            match tables::find(&self.episodes, eid.as_str()) {
                Some(k) => {
                    assert(before.episodes[k as int] == self.episodes@[k as int].deep_view());
                    if !self.episodes[k].relative_path.as_str().is_empty() {
                        let path = self.episodes[k].relative_path.clone();
                        self.mark_episode(eid.as_str(), now, false);
                        self.record_play(
                            HistoryEntry {
                                id: ids[i].clone(),
                                show_id: show_id.to_owned(),
                                episode_id: eid.clone(),
                                relative_path: Some(path),
                                played_at: now.to_owned(),
                            },
                        );
                    }
                },
                None => {},
            }
            i = i + 1;
        }
        assert(eids.take(i as int) =~= eids);
    }

    /// Marks episodes watched now. See [`Replica::mark_episodes_watched_at`].
    pub fn mark_episodes_watched(&mut self, show_id: &str, episode_ids: &[String])
        ensures
            exists|now: Seq<char>, ids: Seq<Seq<char>>|
                ids.len() == episode_ids@.len() && final(self).deep_view()
                    == #[trigger] all_picked_marked(
                    old(self).deep_view(),
                    show_id@,
                    episode_ids.deep_view(),
                    now,
                    ids,
                ),
    {
        let now = clock::now();
        let ids = clock::new_ids(episode_ids.len());
        self.mark_episodes_watched_at(show_id, episode_ids, now.as_str(), ids.as_slice());
    }

    /// The paths of a show's episodes, as the table lists them.
    pub fn episode_paths(&self, show_id: &str) -> (r: Vec<String>)
        ensures
            r.deep_view() == paths_in(self.deep_view().episodes, show_id@),
    {
        let ghost rows = self.episodes.deep_view();
        let mut out: Vec<String> = Vec::new();
        let mut i: usize = 0;
        assert(out.deep_view() =~= paths_in(rows.take(0), show_id@));
        while i < self.episodes.len()
            invariant
                i <= self.episodes@.len(),
                rows == self.episodes.deep_view(),
                out.deep_view() == paths_in(rows.take(i as int), show_id@),
            decreases self.episodes.len() - i,
        {
            let e = &self.episodes[i];
            proof {
                assert(rows[i as int] == e.deep_view());
                assert(rows.take(i + 1).drop_last() =~= rows.take(i as int));
            }
            if text::same_text(e.show_id.as_str(), show_id) {
                let ghost before = out.deep_view();
                out.push(e.relative_path.clone());
                assert(out.deep_view() =~= before.push(e.relative_path@));
            }
            i = i + 1;
        }
        assert(rows.take(i as int) =~= rows);
        out
    }

    fn first_free_position(&self, show_id: &str) -> (r: i128)
        ensures
            r == position_behind(self.deep_view().episodes, show_id@),
            i64::MIN < r <= i64::MAX + 1,
    {
        let ghost rows = self.episodes.deep_view();
        let mut behind: i128 = 0;
        let mut any = false;
        let mut i: usize = 0;
        while i < self.episodes.len()
            invariant
                i <= self.episodes@.len(),
                rows == self.episodes.deep_view(),
                i64::MIN < behind <= i64::MAX + 1,
                behind == position_behind(rows.take(i as int), show_id@),
                any == (episode_count(rows.take(i as int), show_id@) > 0),
            decreases self.episodes.len() - i,
        {
            let e = &self.episodes[i];
            proof {
                assert(rows[i as int] == e.deep_view());
                assert(rows.take(i + 1).drop_last() =~= rows.take(i as int));
            }
            if text::same_text(e.show_id.as_str(), show_id) {
                if e.position as i128 >= behind || !any {
                    behind = e.position as i128 + 1;
                }
                any = true;
            }
            i = i + 1;
        }
        assert(rows.take(i as int) =~= rows);
        behind
    }

    /// What was found of a show that the library does not know, in order.
    pub(crate) fn unknown_among(&self, show_id: &str, found: &[String]) -> (r: Vec<String>)
        ensures
            r.deep_view() == unknown_paths(
                found.deep_view(),
                paths_in(self.deep_view().episodes, show_id@),
            ),
    {
        let known = self.episode_paths(show_id);
        let ghost kv = known.deep_view();
        let ghost fv = found.deep_view();
        let mut out: Vec<String> = Vec::new();
        let mut i: usize = 0;
        assert(out.deep_view() =~= unknown_paths(fv.take(0), kv));
        while i < found.len()
            invariant
                i <= found@.len(),
                fv == found.deep_view(),
                kv == known.deep_view(),
                out.deep_view() == unknown_paths(fv.take(i as int), kv),
            decreases found.len() - i,
        {
            proof {
                assert(fv[i as int] == found@[i as int]@);
                assert(fv.take(i + 1).drop_last() =~= fv.take(i as int));
                assert(fv.take(i + 1).last() == fv[i as int]);
            }
            if !text::is_among(found[i].as_str(), known.as_slice()) {
                let ghost before = out.deep_view();
                out.push(found[i].clone());
                assert(out.deep_view() =~= before.push(fv[i as int]));
            }
            i = i + 1;
        }
        assert(fv.take(i as int) =~= fv);
        out
    }

    /// Takes in a scan of a show's folder: new episodes are appended behind all
    /// others of the show, and those that it has stay as they are. Returns the ids
    /// of the new episodes; where there is no position for them, nothing is
    /// returned and nothing changed.
    pub fn rescan_episodes_at(
        &mut self,
        show_id: &str,
        sorted_rels: &[String],
        now: &str,
        ids: &[String],
    ) -> (r: Option<Vec<String>>)
        requires
            unknown_paths(
                sorted_rels.deep_view(),
                paths_in(old(self).deep_view().episodes, show_id@),
            ).len() <= ids@.len(),
            sorted_rels@.len() <= i64::MAX,
        ensures
            r is Some == rescan_fits(old(self).deep_view(), show_id@, sorted_rels.deep_view()),
            match r {
                Some(added) => {
                    &&& final(self).deep_view() == rescanned(
                        old(self).deep_view(),
                        show_id@,
                        sorted_rels.deep_view(),
                        now@,
                        ids.deep_view(),
                    )
                    &&& added.deep_view() == ids.deep_view().take(
                        unknown_paths(
                            sorted_rels.deep_view(),
                            paths_in(old(self).deep_view().episodes, show_id@),
                        ).len() as int,
                    )
                },
                None => *final(self) == *old(self),
            },
    {
        let ghost v = self.deep_view();
        let added = self.unknown_among(show_id, sorted_rels);
        let first: i128 = self.first_free_position(show_id);
        proof {
            lemma_unknown_count(sorted_rels.deep_view(), paths_in(v.episodes, show_id@));
        }
        if added.len() > 0 {
            if first + (added.len() as i128 - 1) > i64::MAX as i128 {
                return None;
            }
            self.append_episodes(show_id, added.as_slice(), first as i64, now, ids);
        }
        assert(self.episodes.deep_view() =~= v.episodes + new_rows(
            show_id@,
            added.deep_view(),
            position_behind(v.episodes, show_id@),
            now@,
            ids.deep_view(),
        ));
        self.bump(added.len());
        let mut new_ids: Vec<String> = Vec::new();
        let mut k: usize = 0;
        while k < added.len()
            invariant
                k <= added@.len() <= ids@.len(),
                new_ids.deep_view() =~= ids.deep_view().take(k as int),
            decreases added.len() - k,
        {
            let ghost before = new_ids.deep_view();
            new_ids.push(ids[k].clone());
            assert(new_ids.deep_view() =~= before.push(ids.deep_view()[k as int]));
            k = k + 1;
        }
        Some(new_ids)
    }

    /// Takes in a scan with ids that were drawn for the new episodes. Where one of
    /// them is taken already, or two are alike, nothing changes. See
    /// [`Replica::rescan_episodes_at`].
    pub fn rescan_episodes_if_free(
        &mut self,
        show_id: &str,
        sorted_rels: &[String],
        now: &str,
        ids: &[String],
    ) -> (r: Option<Vec<String>>)
        requires
            unknown_paths(
                sorted_rels.deep_view(),
                paths_in(old(self).deep_view().episodes, show_id@),
            ).len() <= ids@.len(),
            sorted_rels@.len() <= i64::MAX,
        ensures
            r is Some == (fresh_episode_ids(old(self).deep_view(), ids.deep_view())
                && rescan_fits(old(self).deep_view(), show_id@, sorted_rels.deep_view())),
            r matches Some(added) ==> {
                &&& final(self).deep_view() == rescanned(
                    old(self).deep_view(),
                    show_id@,
                    sorted_rels.deep_view(),
                    now@,
                    ids.deep_view(),
                )
                &&& added.deep_view() == ids.deep_view().take(
                    unknown_paths(
                        sorted_rels.deep_view(),
                        paths_in(old(self).deep_view().episodes, show_id@),
                    ).len() as int,
                )
            },
            r is None ==> *final(self) == *old(self),
    {
        if !has_fresh_ids(self, ids) {
            return None;
        }
        self.rescan_episodes_at(show_id, sorted_rels, now, ids)
    }

    /// Takes in a scan now. The ids of new episodes are drawn at random; where one
    /// drawn is taken already, nothing changes. That cannot be where there is
    /// nothing new, nor with one new episode where the library has no ids of that
    /// length. See [`Replica::rescan_episodes_if_free`].
    pub fn rescan_episodes(&mut self, show_id: &str, sorted_rels: &[String]) -> (r: Option<
        Vec<String>,
    >)
        requires
            sorted_rels@.len() <= i64::MAX,
        ensures
            r matches Some(added) ==> exists|now: Seq<char>, ids: Seq<Seq<char>>|
                #![trigger rescanned(
                    old(self).deep_view(),
                    show_id@,
                    sorted_rels.deep_view(),
                    now,
                    ids,
                )]
                ids.len() == unknown_paths(
                    sorted_rels.deep_view(),
                    paths_in(old(self).deep_view().episodes, show_id@),
                ).len() && fresh_episode_ids(old(self).deep_view(), ids) && final(self).deep_view()
                    == rescanned(
                    old(self).deep_view(),
                    show_id@,
                    sorted_rels.deep_view(),
                    now,
                    ids,
                ) && added.deep_view() == ids,
            r is Some ==> rescan_fits(old(self).deep_view(), show_id@, sorted_rels.deep_view()),
            r is None ==> {
                &&& *final(self) == *old(self)
                &&& !rescan_fits(old(self).deep_view(), show_id@, sorted_rels.deep_view())
                    || drawn_ids_can_clash(
                    old(self).deep_view(),
                    unknown_paths(
                        sorted_rels.deep_view(),
                        paths_in(old(self).deep_view().episodes, show_id@),
                    ).len(),
                )
            },
    {
        let now = clock::now();
        let count: usize = self.unknown_among(show_id, sorted_rels).len();
        let ids = clock::new_ids(count);
        let ghost v = self.deep_view();
        let r = self.rescan_episodes_if_free(show_id, sorted_rels, now.as_str(), ids.as_slice());
        proof {
            assert(ids.deep_view().take(count as int) =~= ids.deep_view());
            lemma_drawn_for_episodes(v, ids);
        }
        r
    }
}

} // verus!
