//! The requests of the library manager: adding and rescanning shows, finding what
//! is not added yet, and looking into a show. What lies on disk is handed in.

use serde_json::Value;
use vstd::prelude::*;

use crate::clock;
use crate::control;
use crate::control::Reply;
use crate::engine;
use crate::engine::{Episode, Show};
use crate::json;
use crate::json::JsonView;
use crate::library;
use crate::ordering;
use crate::replica;
use crate::replica::Replica;
use crate::rounds;
use crate::sorting;
use crate::sorting::Sortable;
use crate::stats;
use crate::tables;
use crate::tables::{HistoryEntry, ShowRow};
use crate::text;
use crate::text::Rank;

verus! {

pub open spec fn error_reply(code: u16, reason: Seq<char>) -> control::ReplyView {
    control::ReplyView {
        code,
        body: json::with_field(json::empty_record(), "error"@, JsonView::Text(reason)),
    }
}

/// The answer that says what is wrong.
pub fn respond_error(code: u16, reason: &str) -> (r: Reply)
    ensures
        r.deep_view() == error_reply(code, reason@),
{
    let mut body = json::record();
    json::put(&mut body, "error", json::text(reason));
    Reply { code, body }
}

pub open spec fn texts(s: Seq<Seq<char>>) -> JsonView {
    JsonView::List(s.map_values(|t: Seq<char>| JsonView::Text(t)))
}

fn text_list(s: &[String]) -> (r: Value)
    ensures
        json::json_view(r) == texts(s.deep_view()),
{
    let mut items: Vec<Value> = Vec::new();
    let mut i: usize = 0;
    while i < s.len()
        invariant
            i <= s@.len(),
            items@.len() == i,
            forall|j: int|
                0 <= j < i ==> json::json_view(#[trigger] items@[j]) == JsonView::Text(s@[j]@),
        decreases s.len() - i,
    {
        items.push(json::text(s[i].as_str()));
        i = i + 1;
    }
    assert(json::views(items@) =~= s.deep_view().map_values(|t: Seq<char>| JsonView::Text(t)));
    json::list(items)
}

// ── adding ──────────────────────────────────────────────────────────────

pub open spec fn added_record(id: Seq<char>, episodes: nat) -> JsonView {
    let r = json::with_field(json::empty_record(), "id"@, JsonView::Text(id));
    json::with_field(r, "episodes"@, JsonView::Int(episodes as int))
}

/// Why a show is not added: it has no name or folder, or no episode was found.
pub open spec fn add_refusal(
    name: Seq<char>,
    root_path: Seq<char>,
    found: Seq<Seq<char>>,
) -> Option<control::ReplyView> {
    if name.len() == 0 || root_path.len() == 0 {
        Some(error_reply(400, "name and root_path are required"@))
    } else if found.len() == 0 {
        Some(error_reply(400, "no video files found under root_path"@))
    } else {
        None
    }
}

fn refuse_add(name: &str, root_path: &str, found: &[String]) -> (r: Option<Reply>)
    ensures
        r.deep_view() == add_refusal(name@, root_path@, found.deep_view()),
{
    if name.is_empty() || root_path.is_empty() {
        Some(respond_error(400, "name and root_path are required"))
    } else if found.len() == 0 {
        Some(respond_error(400, "no video files found under root_path"))
    } else {
        None
    }
}

/// Adds a show with the episodes that were found in its folder, under ids that
/// were drawn. `None` says that one of these is taken, or that two are alike; the
/// library is then as it was.
pub fn library_add_at(
    library: &mut Replica,
    name: &str,
    root_path: &str,
    playlist: &str,
    found: &[String],
    now: &str,
    show_id: &str,
    ids: &[String],
) -> (r: Option<Reply>)
    requires
        found@.len() <= i64::MAX,
        found@.len() <= ids@.len(),
    ensures
        match add_refusal(name@, root_path@, found.deep_view()) {
            Some(refusal) => {
                &&& *final(library) == *old(library)
                &&& r.deep_view() == Some(refusal)
            },
            None => if tables::place::<ShowRow>(old(library).deep_view().shows, show_id@) is None
                && library::fresh_episode_ids(old(library).deep_view(), ids.deep_view()) {
                &&& final(library).deep_view() == library::show_added(
                    old(library).deep_view(),
                    playlist@,
                    name@,
                    root_path@,
                    found.deep_view(),
                    now@,
                    show_id@,
                    ids.deep_view(),
                )
                &&& r.deep_view() == Some(
                    control::ReplyView { code: 200, body: added_record(show_id@, found@.len()) },
                )
            } else {
                &&& *final(library) == *old(library)
                &&& r is None
            },
        },
{
    let refusal = refuse_add(name, root_path, found);
    if refusal.is_some() {
        return refusal;
    }
    if library.create_show_if_free(playlist, name, root_path, found, now, show_id, ids) {
        let mut body = json::record();
        json::put(&mut body, "id", json::text(show_id));
        json::put(&mut body, "episodes", json::natural(found.len() as u64));
        Some(Reply { code: 200, body })
    } else {
        None
    }
}

/// Adds a show with the episodes that were found in its folder. `None` says that
/// an id that was drawn is taken; the library is then as it was. See
/// [`library_add_at`].
pub fn library_add(
    library: &mut Replica,
    name: &str,
    root_path: &str,
    playlist: &str,
    found: &[String],
) -> (r: Option<Reply>)
    requires
        found@.len() <= i64::MAX,
    ensures
        match add_refusal(name@, root_path@, found.deep_view()) {
            Some(refusal) => {
                &&& *final(library) == *old(library)
                &&& r.deep_view() == Some(refusal)
            },
            None => match r {
                Some(reply) => exists|id: Seq<char>, now: Seq<char>, ids: Seq<Seq<char>>|
                    #![trigger library::show_added(
                        old(library).deep_view(),
                        playlist@,
                        name@,
                        root_path@,
                        found.deep_view(),
                        now,
                        id,
                        ids,
                    )]
                    {
                        &&& tables::place::<ShowRow>(old(library).deep_view().shows, id) is None
                        &&& library::fresh_episode_ids(old(library).deep_view(), ids)
                        &&& ids.len() == found@.len()
                        &&& final(library).deep_view() == library::show_added(
                            old(library).deep_view(),
                            playlist@,
                            name@,
                            root_path@,
                            found.deep_view(),
                            now,
                            id,
                            ids,
                        )
                        &&& reply.deep_view() == (control::ReplyView {
                            code: 200,
                            body: added_record(id, found@.len()),
                        })
                    },
                None => {
                    &&& *final(library) == *old(library)
                    &&& library::drawn_show_id_can_clash(old(library).deep_view())
                        || library::drawn_ids_can_clash(old(library).deep_view(), found@.len())
                },
            },
        },
{
    let refusal = refuse_add(name, root_path, found);
    if refusal.is_some() {
        return refusal;
    }
    let now = clock::now();
    let show_id = clock::new_id();
    let ids = clock::new_ids(found.len());
    proof {
        library::lemma_drawn_for_show(library.deep_view(), show_id@, ids);
    }
    library_add_at(
        library,
        name,
        root_path,
        playlist,
        found,
        now.as_str(),
        show_id.as_str(),
        ids.as_slice(),
    )
}

/// The episodes that were found in a folder.
pub fn library_preview(root_path: &str, found: &[String]) -> (r: Reply)
    ensures
        r.deep_view() == if root_path@.len() == 0 {
            error_reply(400, "root_path is required"@)
        } else {
            control::ReplyView {
                code: 200,
                body: json::with_field(
                    json::empty_record(),
                    "episodes"@,
                    texts(found.deep_view()),
                ),
            }
        },
{
    if root_path.is_empty() {
        return respond_error(400, "root_path is required");
    }
    let mut body = json::record();
    json::put(&mut body, "episodes", text_list(found));
    Reply { code: 200, body }
}

/// The folder that was picked, if one was.
pub fn library_pick_folder(picked: &Option<String>) -> (r: Reply)
    ensures
        r.deep_view() == (control::ReplyView {
            code: 200,
            body: json::with_field(
                json::empty_record(),
                "path"@,
                json::option_text(picked.deep_view()),
            ),
        }),
{
    let mut body = json::record();
    json::put(&mut body, "path", json::maybe_text(picked));
    Reply { code: 200, body }
}

// ── the next round ──────────────────────────────────────────────────────

/// An entry of the next round as the manager lists it.
pub open spec fn next_entry(
    shows: Seq<engine::ShowView>,
    o: ordering::OrderedView,
) -> JsonView {
    let name = match rounds::show_named(shows, o.show_id) {
        Some(i) => shows[i].name,
        None => Seq::empty(),
    };
    let r = json::empty_record();
    let r = json::with_field(r, "show_id"@, JsonView::Text(o.show_id));
    let r = json::with_field(r, "show_name"@, JsonView::Text(name));
    let r = json::with_field(r, "episode_id"@, JsonView::Text(o.episode_id));
    json::with_field(r, "relative_path"@, JsonView::Text(o.absolute_path))
}

pub open spec fn next_round_record(v: replica::LibraryView) -> JsonView {
    let shows = replica::active_among(v, v.shows, seq!["nelson"@]);
    let round = engine::round_of_shows(shows);
    json::with_field(
        json::empty_record(),
        "next_round"@,
        JsonView::List(round.map_values(|o: ordering::OrderedView| next_entry(shows, o))),
    )
}

/// The round that the active shows would make now.
pub fn library_next_round(library: &Replica) -> (r: Reply)
    ensures
        r.deep_view() == (control::ReplyView {
            code: 200,
            body: next_round_record(library.deep_view()),
        }),
{
    let mut playlists: Vec<String> = Vec::new();
    playlists.push("nelson".to_owned());
    assert(playlists.deep_view() =~= seq!["nelson"@]);
    let shows = library.active_shows(playlists.as_slice());
    let round = engine::next_round(shows.as_slice());
    let ghost sv = shows.deep_view();
    let ghost rv = round.deep_view();
    let mut items: Vec<Value> = Vec::new();
    let mut i: usize = 0;
    while i < round.len()
        invariant
            i <= round@.len(),
            sv == shows.deep_view(),
            rv == round.deep_view(),
            items@.len() == i,
            forall|j: int|
                0 <= j < i ==> json::json_view(#[trigger] items@[j]) == next_entry(sv, rv[j]),
        decreases round.len() - i,
    {
        let o = &round[i];
        assert(rv[i as int] == o.deep_view());
        let name = match rounds::find_show(&shows, o.show_id.as_str()) {
            Some(k) => {
                assert(sv[k as int] == shows@[k as int].deep_view());
                shows[k].name.clone()
            },
            None => String::new(),
        };
        let mut e = json::record();
        json::put(&mut e, "show_id", json::text(o.show_id.as_str()));
        json::put(&mut e, "show_name", json::text(name.as_str()));
        json::put(&mut e, "episode_id", json::text(o.episode_id.as_str()));
        json::put(&mut e, "relative_path", json::text(o.absolute_path.as_str()));
        items.push(e);
        i = i + 1;
    }
    assert(json::views(items@) =~= rv.map_values(
        |o: ordering::OrderedView| next_entry(sv, o),
    ));
    let mut body = json::record();
    json::put(&mut body, "next_round", json::list(items));
    Reply { code: 200, body }
}

// ── what is not added yet ───────────────────────────────────────────────

/// A folder: its path, and its last name, where it has one.
#[derive(Debug, Clone)]
pub struct Folder {
    pub path: String,
    pub name: Option<String>,
}

#[verifier::ext_equal]
pub struct FolderView {
    pub path: Seq<char>,
    pub name: Option<Seq<char>>,
}

impl DeepView for Folder {
    type V = FolderView;

    open spec fn deep_view(&self) -> FolderView {
        FolderView { path: self.path@, name: self.name.deep_view() }
    }
}

/// Whether two folders are taken for the same show: they have the same last
/// name, wherever they lie; without a name, the same path.
pub open spec fn same_folder(a: FolderView, b: FolderView) -> bool {
    match (a.name, b.name) {
        (Some(x), Some(y)) => x == y,
        _ => a.path == b.path,
    }
}

/// The paths of the folders that no show has.
pub open spec fn unadded_among(folders: Seq<FolderView>, shows: Seq<FolderView>) -> Seq<Seq<char>>
    decreases folders.len(),
{
    if folders.len() == 0 {
        Seq::empty()
    } else {
        let before = unadded_among(folders.drop_last(), shows);
        if exists|k: int| 0 <= k < shows.len() && same_folder(#[trigger] shows[k], folders.last()) {
            before
        } else {
            before.push(folders.last().path)
        }
    }
}

impl Sortable for String {
    /// In the order of strings.
    open spec fn leq(a: Seq<char>, b: Seq<char>) -> bool {
        !text::text_before(b, a)
    }

    proof fn lemma_total(a: Seq<char>, b: Seq<char>) {
        text::lemma_text_order(a, b);
    }

    proof fn lemma_transitive(a: Seq<char>, b: Seq<char>, c: Seq<char>) {
        text::lemma_text_order(a, b);
        text::lemma_text_order(b, c);
        text::lemma_text_order(a, c);
        if text::text_before(c, a) {
            if text::text_before(a, b) {
                text::lemma_text_before_transitive(c, a, b);
            }
        }
    }

    fn at_most(&self, other: &Self) -> (r: bool) {
        match text::rank_text(other.as_str(), self.as_str()) {
            Rank::Below => false,
            _ => true,
        }
    }
}

fn is_same_folder(a: &Folder, b: &Folder) -> (r: bool)
    ensures
        r == same_folder(a.deep_view(), b.deep_view()),
{
    match (&a.name, &b.name) {
        (Some(x), Some(y)) => text::same_text(x.as_str(), y.as_str()),
        _ => text::same_text(a.path.as_str(), b.path.as_str()),
    }
}

fn has_show(folder: &Folder, shows: &[Folder]) -> (r: bool)
    ensures
        r == exists|k: int|
            0 <= k < shows.deep_view().len() && same_folder(
                #[trigger] shows.deep_view()[k],
                folder.deep_view(),
            ),
{
    let ghost views = shows.deep_view();
    let mut i: usize = 0;
    while i < shows.len()
        invariant
            i <= shows@.len(),
            views == shows.deep_view(),
            forall|k: int| 0 <= k < i ==> !same_folder(#[trigger] views[k], folder.deep_view()),
        decreases shows.len() - i,
    {
        assert(views[i as int] == shows@[i as int].deep_view());
        if is_same_folder(&shows[i], folder) {
            return true;
        }
        i = i + 1;
    }
    false
}

/// The folders that no show has, sorted by their paths.
pub fn library_detect_unadded(parent: &str, folders: &[Folder], shows: &[Folder]) -> (r: Reply)
    ensures
        r.deep_view() == if parent@.len() == 0 {
            error_reply(400, "parent_path is required"@)
        } else {
            control::ReplyView {
                code: 200,
                body: json::with_field(
                    json::empty_record(),
                    "unadded"@,
                    texts(
                        sorting::in_order::<String>(
                            unadded_among(folders.deep_view(), shows.deep_view()),
                        ),
                    ),
                ),
            }
        },
{
    if parent.is_empty() {
        return respond_error(400, "parent_path is required");
    }
    let ghost fv = folders.deep_view();
    let ghost sv = shows.deep_view();
    let mut unadded: Vec<String> = Vec::new();
    let mut i: usize = 0;
    assert(unadded.deep_view() =~= unadded_among(fv.take(0), sv));
    while i < folders.len()
        invariant
            i <= folders@.len(),
            fv == folders.deep_view(),
            sv == shows.deep_view(),
            unadded.deep_view() == unadded_among(fv.take(i as int), sv),
        decreases folders.len() - i,
    {
        proof {
            assert(fv[i as int] == folders@[i as int].deep_view());
            assert(fv.take(i + 1).drop_last() =~= fv.take(i as int));
            assert(fv.take(i + 1).last() == fv[i as int]);
        }
        if !has_show(&folders[i], shows) {
            let ghost before = unadded.deep_view();
            unadded.push(folders[i].path.clone());
            assert(unadded.deep_view() =~= before.push(fv[i as int].path));
        }
        i = i + 1;
    }
    assert(fv.take(i as int) =~= fv);
    let sorted = sorting::stable_sort(unadded);
    let mut body = json::record();
    json::put(&mut body, "unadded", text_list(sorted.as_slice()));
    Reply { code: 200, body }
}

// ── new episodes ────────────────────────────────────────────────────────

pub open spec fn new_episodes_record(s: engine::ShowView, new: Seq<Seq<char>>) -> JsonView {
    let r = json::empty_record();
    let r = json::with_field(r, "show_id"@, JsonView::Text(s.id));
    let r = json::with_field(r, "show_name"@, JsonView::Text(s.name));
    json::with_field(r, "new_episodes"@, texts(new))
}

/// The shows in whose folders more was found than the library knows.
pub open spec fn shows_with_new(
    v: replica::LibraryView,
    shows: Seq<engine::ShowView>,
    scans: Seq<Seq<Seq<char>>>,
) -> Seq<JsonView>
    decreases shows.len(),
{
    if shows.len() == 0 {
        Seq::empty()
    } else {
        let before = shows_with_new(v, shows.drop_last(), scans);
        let s = shows.last();
        let new = library::unknown_paths(
            scans[shows.len() - 1],
            library::paths_in(v.episodes, s.id),
        );
        if new.len() == 0 {
            before
        } else {
            before.push(new_episodes_record(s, new))
        }
    }
}

/// What was found of a show that the library does not know.
pub fn unknown_of(library: &Replica, show_id: &str, found: &[String]) -> (r: Vec<String>)
    ensures
        r.deep_view() == library::unknown_paths(
            found.deep_view(),
            library::paths_in(library.deep_view().episodes, show_id@),
        ),
{
    library.unknown_among(show_id, found)
}

/// The shows in whose folders more was found than the library knows. `scans`
/// holds what was found for each of the shows that are not retired, in their
/// order.
pub fn library_detect_new_episodes(library: &Replica, scans: &[Vec<String>]) -> (r: Reply)
    requires
        scans@.len() >= replica::all_among(library.deep_view(), library.deep_view().shows).len(),
    ensures
        r.deep_view() == (control::ReplyView {
            code: 200,
            body: json::with_field(
                json::empty_record(),
                "shows"@,
                JsonView::List(
                    shows_with_new(
                        library.deep_view(),
                        replica::all_among(library.deep_view(), library.deep_view().shows),
                        scans.deep_view(),
                    ),
                ),
            ),
        }),
{
    let shows = library.all_shows();
    let ghost v = library.deep_view();
    let ghost sv = shows.deep_view();
    let ghost cv = scans.deep_view();
    let mut items: Vec<Value> = Vec::new();
    let mut i: usize = 0;
    assert(json::views(items@) =~= shows_with_new(v, sv.take(0), cv));
    while i < shows.len()
        invariant
            i <= shows@.len(),
            shows@.len() <= scans@.len(),
            v == library.deep_view(),
            sv == shows.deep_view(),
            cv == scans.deep_view(),
            json::views(items@) == shows_with_new(v, sv.take(i as int), cv),
        decreases shows.len() - i,
    {
        proof {
            assert(sv[i as int] == shows@[i as int].deep_view());
            assert(cv[i as int] == scans@[i as int].deep_view());
            assert(sv.take(i + 1).drop_last() =~= sv.take(i as int));
            assert(sv.take(i + 1).last() == sv[i as int]);
        }
        let new = unknown_of(library, shows[i].id.as_str(), scans[i].as_slice());
        if new.len() > 0 {
            let mut e = json::record();
            json::put(&mut e, "show_id", json::text(shows[i].id.as_str()));
            json::put(&mut e, "show_name", json::text(shows[i].name.as_str()));
            json::put(&mut e, "new_episodes", text_list(new.as_slice()));
            let ghost before = json::views(items@);
            items.push(e);
            assert(json::views(items@) =~= before.push(json::json_view(e)));
        }
        i = i + 1;
    }
    assert(sv.take(i as int) =~= sv);
    let mut body = json::record();
    json::put(&mut body, "shows", json::list(items));
    Reply { code: 200, body }
}

// ── rescanning ──────────────────────────────────────────────────────────

pub open spec fn added_reply(n: nat) -> control::ReplyView {
    control::ReplyView {
        code: 200,
        body: json::with_field(json::empty_record(), "added"@, JsonView::Int(n as int)),
    }
}

/// The ids that a rescan gives to new episodes.
pub open spec fn ids_given(
    v: replica::LibraryView,
    show_id: Seq<char>,
    found: Seq<Seq<char>>,
    ids: Seq<Seq<char>>,
) -> Seq<Seq<char>> {
    ids.take(
        library::unknown_paths(found, library::paths_in(v.episodes, show_id)).len() as int,
    )
}

/// The library after a rescan; with the new episodes watched where that is asked
/// for.
pub open spec fn after_rescan(
    v: replica::LibraryView,
    show_id: Seq<char>,
    found: Seq<Seq<char>>,
    watched: bool,
    now: Seq<char>,
    ids: Seq<Seq<char>>,
    later: Seq<char>,
    plays: Seq<Seq<char>>,
) -> replica::LibraryView {
    let w = library::rescanned(v, show_id, found, now, ids);
    if watched && ids_given(v, show_id, found, ids).len() > 0 {
        library::all_picked_marked(w, show_id, ids_given(v, show_id, found, ids), later, plays)
    } else {
        w
    }
}

/// What came of a rescan.
#[derive(Debug, Clone)]
pub struct Rescanned {
    pub reply: Reply,
    /// The library changed.
    pub changed: bool,
}

/// What is answered where there is no such show.
fn nothing_rescanned() -> (r: Rescanned)
    ensures
        r.reply.deep_view() == added_reply(0),
        !r.changed,
{
    let mut body = json::record();
    json::put(&mut body, "added", json::natural(0));
    Rescanned { reply: Reply { code: 200, body }, changed: false }
}

/// Takes what was found in a show's folder into the library, with ids that were
/// drawn for new episodes and, where these are to be watched, for their plays.
/// `None` says that one of the first is taken, that two are alike, or that a
/// position would not fit; the library is then as it was.
pub fn library_rescan_at(
    library: &mut Replica,
    show_id: &str,
    found: &[String],
    watched: bool,
    now: &str,
    ids: &[String],
    later: &str,
    plays: &[String],
) -> (r: Option<Rescanned>)
    requires
        found@.len() <= i64::MAX,
        library::unknown_paths(
            found.deep_view(),
            library::paths_in(old(library).deep_view().episodes, show_id@),
        ).len() <= ids@.len(),
        watched ==> library::unknown_paths(
            found.deep_view(),
            library::paths_in(old(library).deep_view().episodes, show_id@),
        ).len() <= plays@.len(),
    ensures
        replica::show_of(old(library).deep_view(), show_id@) is None ==> {
            &&& *final(library) == *old(library)
            &&& r is Some
            &&& r->0.reply.deep_view() == added_reply(0)
            &&& !r->0.changed
        },
        replica::show_of(old(library).deep_view(), show_id@) is Some ==> {
            &&& r is Some == (library::fresh_episode_ids(
                old(library).deep_view(),
                ids.deep_view(),
            ) && library::rescan_fits(old(library).deep_view(), show_id@, found.deep_view()))
            &&& r is Some ==> {
                &&& r->0.changed
                &&& final(library).deep_view() == after_rescan(
                    old(library).deep_view(),
                    show_id@,
                    found.deep_view(),
                    watched,
                    now@,
                    ids.deep_view(),
                    later@,
                    plays.deep_view(),
                )
                &&& r->0.reply.deep_view() == added_reply(
                    library::unknown_paths(
                        found.deep_view(),
                        library::paths_in(old(library).deep_view().episodes, show_id@),
                    ).len(),
                )
            }
            &&& r is None ==> *final(library) == *old(library)
        },
{
    if library.show(show_id).is_none() {
        return Some(nothing_rescanned());
    }
    let added = match library.rescan_episodes_if_free(show_id, found, now, ids) {
        Some(added) => added,
        None => {
            return None;
        },
    };
    if watched && added.len() > 0 {
        library.mark_episodes_watched_at(show_id, added.as_slice(), later, plays);
    }
    let mut body = json::record();
    json::put(&mut body, "added", json::natural(added.len() as u64));
    Some(Rescanned { reply: Reply { code: 200, body }, changed: true })
}

/// Takes what was found in a show's folder into the library. `None` says that
/// an id that was drawn is taken, or that a position would not fit; the library
/// is then as it was. See [`library_rescan_at`].
pub fn library_rescan(library: &mut Replica, show_id: &str, found: &[String], watched: bool) -> (r:
    Option<Rescanned>)
    requires
        found@.len() <= i64::MAX,
    ensures
        replica::show_of(old(library).deep_view(), show_id@) is None ==> {
            &&& *final(library) == *old(library)
            &&& r is Some
            &&& r->0.reply.deep_view() == added_reply(0)
            &&& !r->0.changed
        },
        replica::show_of(old(library).deep_view(), show_id@) is Some && r is Some ==> {
            &&& r->0.changed
            &&& library::rescan_fits(old(library).deep_view(), show_id@, found.deep_view())
            &&& r->0.reply.deep_view() == added_reply(
                library::unknown_paths(
                    found.deep_view(),
                    library::paths_in(old(library).deep_view().episodes, show_id@),
                ).len(),
            )
            &&& exists|now: Seq<char>, ids: Seq<Seq<char>>, later: Seq<char>, plays: Seq<Seq<char>>|
                #![trigger after_rescan(
                    old(library).deep_view(),
                    show_id@,
                    found.deep_view(),
                    watched,
                    now,
                    ids,
                    later,
                    plays,
                )]
                {
                    &&& ids.len() == library::unknown_paths(
                        found.deep_view(),
                        library::paths_in(old(library).deep_view().episodes, show_id@),
                    ).len()
                    &&& plays.len() == ids.len()
                    &&& library::fresh_episode_ids(old(library).deep_view(), ids)
                    &&& final(library).deep_view() == after_rescan(
                        old(library).deep_view(),
                        show_id@,
                        found.deep_view(),
                        watched,
                        now,
                        ids,
                        later,
                        plays,
                    )
                }
        },
        r is None ==> {
            &&& *final(library) == *old(library)
            &&& !library::rescan_fits(old(library).deep_view(), show_id@, found.deep_view())
                || library::drawn_ids_can_clash(
                old(library).deep_view(),
                library::unknown_paths(
                    found.deep_view(),
                    library::paths_in(old(library).deep_view().episodes, show_id@),
                ).len(),
            )
        },
{
    if library.show(show_id).is_none() {
        return Some(nothing_rescanned());
    }
    let count: usize = library.unknown_among(show_id, found).len();
    let now = clock::now();
    let ids = clock::new_ids(count);
    let later = clock::now();
    let plays = clock::new_ids(count);
    proof {
        library::lemma_drawn_for_episodes(library.deep_view(), ids);
    }
    library_rescan_at(
        library,
        show_id,
        found,
        watched,
        now.as_str(),
        ids.as_slice(),
        later.as_str(),
        plays.as_slice(),
    )
}

// ── looking into a show ─────────────────────────────────────────────────

/// An episode as the manager lists it, with its resume point as the given value.
pub open spec fn episode_record(e: engine::EpisodeView, resume: JsonView) -> JsonView {
    let r = json::empty_record();
    let r = json::with_field(r, "id"@, JsonView::Text(e.id));
    let r = json::with_field(r, "relative_path"@, JsonView::Text(e.relative_path));
    let r = json::with_field(r, "position"@, JsonView::Int(e.position as int));
    let r = json::with_field(r, "watched_at"@, json::option_text(e.watched_at));
    json::with_field(r, "resume_pos"@, resume)
}

/// The episodes that are watched.
pub open spec fn previous_among(eps: Seq<engine::EpisodeView>, resumes: Seq<JsonView>) -> Seq<
    JsonView,
>
    decreases eps.len(),
{
    if eps.len() == 0 {
        Seq::empty()
    } else {
        let before = previous_among(eps.drop_last(), resumes);
        if eps.last().watched_at is Some {
            before.push(episode_record(eps.last(), resumes[eps.len() - 1]))
        } else {
            before
        }
    }
}

/// The episodes that are not watched, but for the one that comes next.
pub open spec fn upcoming_among(
    eps: Seq<engine::EpisodeView>,
    resumes: Seq<JsonView>,
    next: Option<Seq<char>>,
) -> Seq<JsonView>
    decreases eps.len(),
{
    if eps.len() == 0 {
        Seq::empty()
    } else {
        let before = upcoming_among(eps.drop_last(), resumes, next);
        if eps.last().watched_at is None && next != Some(eps.last().id) {
            before.push(episode_record(eps.last(), resumes[eps.len() - 1]))
        } else {
            before
        }
    }
}

pub open spec fn next_id(eps: Seq<engine::EpisodeView>) -> Option<Seq<char>> {
    match engine::pick(eps) {
        Some(e) => Some(e.id),
        None => None,
    }
}

pub open spec fn show_record(s: engine::ShowView) -> JsonView {
    let r = json::empty_record();
    let r = json::with_field(r, "id"@, JsonView::Text(s.id));
    let r = json::with_field(r, "name"@, JsonView::Text(s.name));
    let r = json::with_field(r, "playlist"@, JsonView::Text(s.playlist));
    json::with_field(r, "root_path"@, JsonView::Text(s.root_path))
}

pub open spec fn details_record(
    v: replica::LibraryView,
    s: engine::ShowView,
    resumes: Seq<JsonView>,
) -> JsonView {
    let eps = s.episodes;
    let r = json::with_field(json::empty_record(), "show"@, show_record(s));
    let r = json::with_field(
        r,
        "all_episodes"@,
        JsonView::List(Seq::new(eps.len(), |i: int| episode_record(eps[i], resumes[i]))),
    );
    let r = json::with_field(r, "previous_episodes"@, JsonView::List(previous_among(eps, resumes)));
    let r = json::with_field(
        r,
        "upcoming_episodes"@,
        JsonView::List(upcoming_among(eps, resumes, next_id(eps))),
    );
    json::with_field(
        r,
        "history"@,
        JsonView::List(
            sorting::in_order::<HistoryEntry>(stats::plays_in(v.history, s.id)).map_values(
                |h: tables::HistoryEntryView| stats::play_record(h),
            ),
        ),
    )
}

fn episode_json(e: &Episode, resume: &Value) -> (r: Value)
    ensures
        json::json_view(r) == episode_record(e.deep_view(), json::json_view(*resume)),
{
    let mut r = json::record();
    json::put(&mut r, "id", json::text(e.id.as_str()));
    json::put(&mut r, "relative_path", json::text(e.relative_path.as_str()));
    json::put(&mut r, "position", json::integer(e.position));
    json::put(&mut r, "watched_at", json::maybe_text(&e.watched_at));
    json::put(&mut r, "resume_pos", resume.clone());
    r
}

fn show_json(s: &Show) -> (r: Value)
    ensures
        json::json_view(r) == show_record(s.deep_view()),
{
    let mut r = json::record();
    json::put(&mut r, "id", json::text(s.id.as_str()));
    json::put(&mut r, "name", json::text(s.name.as_str()));
    json::put(&mut r, "playlist", json::text(s.playlist.as_str()));
    json::put(&mut r, "root_path", json::text(s.root_path.as_str()));
    r
}

fn details_json(library: &Replica, show: &Show, resumes: &[Value]) -> (r: Value)
    requires
        show.episodes@.len() <= resumes@.len(),
    ensures
        json::json_view(r) == details_record(
            library.deep_view(),
            show.deep_view(),
            json::views(resumes@),
        ),
{
    let ghost eps = show.episodes.deep_view();
    let ghost rv = json::views(resumes@);
    let next: Option<String> = match engine::first_unwatched(show.episodes.as_slice()) {
        Some(e) => Some(e.id.clone()),
        None => None,
    };
    let ghost nv = next.deep_view();
    assert(nv == next_id(eps));
    let mut all: Vec<Value> = Vec::new();
    let mut previous: Vec<Value> = Vec::new();
    let mut upcoming: Vec<Value> = Vec::new();
    let mut i: usize = 0;
    assert(json::views(previous@) =~= previous_among(eps.take(0), rv));
    assert(json::views(upcoming@) =~= upcoming_among(eps.take(0), rv, nv));
    while i < show.episodes.len()
        invariant
            i <= show.episodes@.len(),
            show.episodes@.len() <= resumes@.len(),
            eps == show.episodes.deep_view(),
            rv == json::views(resumes@),
            nv == next.deep_view(),
            all@.len() == i,
            forall|j: int|
                0 <= j < i ==> json::json_view(#[trigger] all@[j]) == episode_record(eps[j], rv[j]),
            json::views(previous@) == previous_among(eps.take(i as int), rv),
            json::views(upcoming@) == upcoming_among(eps.take(i as int), rv, nv),
        decreases show.episodes.len() - i,
    {
        let e = &show.episodes[i];
        proof {
            assert(eps[i as int] == e.deep_view());
            assert(rv[i as int] == json::json_view(resumes@[i as int]));
            assert(eps.take(i + 1).drop_last() =~= eps.take(i as int));
            assert(eps.take(i + 1).last() == eps[i as int]);
        }
        let told = episode_json(e, &resumes[i]);
        if e.watched_at.is_some() {
            let ghost before = json::views(previous@);
            let copy = told.clone();
            previous.push(copy);
            assert(json::views(previous@) =~= before.push(json::json_view(copy)));
        } else {
            let is_next = match &next {
                Some(id) => text::same_text(id.as_str(), e.id.as_str()),
                None => false,
            };
            if !is_next {
                let ghost before = json::views(upcoming@);
                let copy = told.clone();
                upcoming.push(copy);
                assert(json::views(upcoming@) =~= before.push(json::json_view(copy)));
            }
        }
        all.push(told);
        i = i + 1;
    }
    assert(eps.take(i as int) =~= eps);
    assert(json::views(all@) =~= Seq::new(eps.len(), |k: int| episode_record(eps[k], rv[k])));
    let plays = library.show_history(show.id.as_str());
    let mut r = json::record();
    json::put(&mut r, "show", show_json(show));
    json::put(&mut r, "all_episodes", json::list(all));
    json::put(&mut r, "previous_episodes", json::list(previous));
    json::put(&mut r, "upcoming_episodes", json::list(upcoming));
    json::put(&mut r, "history", json::list(plays));
    r
}

/// A show with its episodes and its plays. `resumes` holds the resume point of
/// each of its episodes as a value, in their order.
pub fn library_show_details(library: &Replica, show_id: &str, resumes: &[Value]) -> (r: Reply)
    requires
        replica::show_of(library.deep_view(), show_id@) matches Some(s) ==> s.episodes.len()
            <= resumes@.len(),
    ensures
        r.deep_view() == match replica::show_of(library.deep_view(), show_id@) {
            Some(s) => control::ReplyView {
                code: 200,
                body: details_record(library.deep_view(), s, json::views(resumes@)),
            },
            None => error_reply(404, "not found"@),
        },
{
    match library.show(show_id) {
        Some(show) => {
            let body = details_json(library, &show, resumes);
            Reply { code: 200, body }
        },
        None => respond_error(404, "not found"),
    }
}

// ── browsing ────────────────────────────────────────────────────────────

/// A drive as the folder browser lists it.
pub open spec fn drive_record(letter: char) -> JsonView {
    let r = json::empty_record();
    let r = json::with_field(r, "name"@, JsonView::Text(seq![letter] + ":"@));
    let r = json::with_field(r, "path"@, JsonView::Text(seq![letter] + ":\\"@));
    json::with_field(r, "is_drive"@, JsonView::Bool(true))
}

/// The drives that are there, as the folder browser lists them.
pub fn list_drives(letters: &[char]) -> (r: Value)
    ensures
        json::json_view(r) == JsonView::List(
            letters@.map_values(|c: char| drive_record(c)),
        ),
{
    let mut items: Vec<Value> = Vec::new();
    let mut i: usize = 0;
    while i < letters.len()
        invariant
            i <= letters@.len(),
            items@.len() == i,
            forall|j: int|
                0 <= j < i ==> json::json_view(#[trigger] items@[j]) == drive_record(letters@[j]),
        decreases letters.len() - i,
    {
        let mut name = String::new();
        name.push(letters[i]);
        assert(name@ =~= seq![letters@[i as int]]);
        let path = name.clone().concat(":\\");
        let name = name.concat(":");
        let mut e = json::record();
        json::put(&mut e, "name", json::text(name.as_str()));
        json::put(&mut e, "path", json::text(path.as_str()));
        json::put(&mut e, "is_drive", json::boolean(true));
        items.push(e);
        i = i + 1;
    }
    assert(json::views(items@) =~= letters@.map_values(|c: char| drive_record(c)));
    json::list(items)
}

/// Whether Windows hides a file: it is hidden, or of the system.
pub fn has_hidden_attributes(attributes: u32) -> (r: bool)
    ensures
        r == (attributes & 6 != 0),
{
    attributes & 6 != 0
}

/// Whether a name is one of a hidden file elsewhere: it begins with a dot.
pub fn is_dot_name(name: &str) -> (r: bool)
    ensures
        r == (name@.len() > 0 && name@[0] == '.'),
{
    let chars = text::chars_of(name);
    chars.len() > 0 && chars[0] == '.'
}

/// A folder with its name in lower case, by which it is sorted.
#[derive(Debug, Clone)]
pub struct Directory {
    pub name: String,
    pub path: String,
    pub key: String,
}

#[verifier::ext_equal]
pub struct DirectoryView {
    pub name: Seq<char>,
    pub path: Seq<char>,
    pub key: Seq<char>,
}

impl DeepView for Directory {
    type V = DirectoryView;

    open spec fn deep_view(&self) -> DirectoryView {
        DirectoryView { name: self.name@, path: self.path@, key: self.key@ }
    }
}

impl Sortable for Directory {
    /// By the name in lower case.
    open spec fn leq(a: DirectoryView, b: DirectoryView) -> bool {
        String::leq(a.key, b.key)
    }

    proof fn lemma_total(a: DirectoryView, b: DirectoryView) {
        String::lemma_total(a.key, b.key);
    }

    proof fn lemma_transitive(a: DirectoryView, b: DirectoryView, c: DirectoryView) {
        String::lemma_transitive(a.key, b.key, c.key);
    }

    fn at_most(&self, other: &Self) -> (r: bool) {
        self.key.at_most(&other.key)
    }
}

/// Folders, given by name and path, each with its key.
pub open spec fn keyed(found: Seq<(Seq<char>, Seq<char>)>) -> Seq<DirectoryView> {
    found.map_values(
        |f: (Seq<char>, Seq<char>)|
            DirectoryView { name: f.0, path: f.1, key: text::lowercase(f.0) },
    )
}

pub open spec fn directory_record(d: DirectoryView) -> JsonView {
    let r = json::with_field(json::empty_record(), "name"@, JsonView::Text(d.name));
    json::with_field(r, "path"@, JsonView::Text(d.path))
}

/// The folders in a folder, given by name and path, sorted by their names
/// whatever their case.
pub fn read_directories(found: &[(String, String)]) -> (r: Value)
    ensures
        json::json_view(r) == JsonView::List(
            sorting::in_order::<Directory>(keyed(found.deep_view())).map_values(
                |d: DirectoryView| directory_record(d),
            ),
        ),
{
    let ghost fv = found.deep_view();
    let mut all: Vec<Directory> = Vec::new();
    let mut i: usize = 0;
    while i < found.len()
        invariant
            i <= found@.len(),
            fv == found.deep_view(),
            all@.len() == i,
            forall|j: int| 0 <= j < i ==> (#[trigger] all@[j]).deep_view() == keyed(fv)[j],
        decreases found.len() - i,
    {
        assert(fv[i as int] == found@[i as int].deep_view());
        let d = Directory {
            name: found[i].0.clone(),
            path: found[i].1.clone(),
            key: text::to_lower(found[i].0.as_str()),
        };
        assert(d.deep_view() =~= keyed(fv)[i as int]);
        all.push(d);
        i = i + 1;
    }
    assert(all.deep_view() =~= keyed(fv));
    let sorted = sorting::stable_sort(all);
    let ghost sv = sorted.deep_view();
    let mut items: Vec<Value> = Vec::new();
    let mut k: usize = 0;
    while k < sorted.len()
        invariant
            k <= sorted@.len(),
            sv == sorted.deep_view(),
            items@.len() == k,
            forall|j: int|
                0 <= j < k ==> json::json_view(#[trigger] items@[j]) == directory_record(sv[j]),
        decreases sorted.len() - k,
    {
        assert(sv[k as int] == sorted@[k as int].deep_view());
        let mut e = json::record();
        json::put(&mut e, "name", json::text(sorted[k].name.as_str()));
        json::put(&mut e, "path", json::text(sorted[k].path.as_str()));
        items.push(e);
        k = k + 1;
    }
    assert(json::views(items@) =~= sv.map_values(|d: DirectoryView| directory_record(d)));
    json::list(items)
}

// ── laws ────────────────────────────────────────────────────────────────

/// Every episode of a show is told as watched, as upcoming, or is the one that
/// comes next.
pub proof fn law_details_tell_every_episode(
    eps: Seq<engine::EpisodeView>,
    resumes: Seq<JsonView>,
    next: Option<Seq<char>>,
    i: int,
)
    requires
        0 <= i < eps.len(),
    ensures
        eps[i].watched_at is Some ==> previous_among(eps, resumes).contains(
            episode_record(eps[i], resumes[i]),
        ),
        eps[i].watched_at is None && next != Some(eps[i].id) ==> upcoming_among(
            eps,
            resumes,
            next,
        ).contains(episode_record(eps[i], resumes[i])),
    decreases eps.len(),
{
    let front = eps.drop_last();
    let p = previous_among(eps, resumes);
    let u = upcoming_among(eps, resumes, next);
    let x = episode_record(eps[i], resumes[i]);
    if i < front.len() {
        law_details_tell_every_episode(front, resumes, next, i);
        assert(front[i] == eps[i]);
        let fp = previous_among(front, resumes);
        let fu = upcoming_among(front, resumes, next);
        if fp.contains(x) {
            let k = choose|k: int| 0 <= k < fp.len() && fp[k] == x;
            assert(p[k] == x);
        }
        if fu.contains(x) {
            let k = choose|k: int| 0 <= k < fu.len() && fu[k] == x;
            assert(u[k] == x);
        }
    } else {
        if eps[i].watched_at is Some {
            assert(p[p.len() - 1] == x);
        } else if next != Some(eps[i].id) {
            assert(u[u.len() - 1] == x);
        }
    }
}

} // verus!
