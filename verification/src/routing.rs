//! Where requests lead: what is asked for at each path, and with what.

use vstd::prelude::*;

use crate::json;
use crate::json::JsonView;
use crate::routes;
use crate::routes::{GetRouteView, PostView, WindowAction};
use crate::spelling;
use crate::text;
use crate::web;

verus! {

// ── paths and queries ───────────────────────────────────────────────────

/// The path of a URL is what stands before the first question mark, and all of it
/// where there is none.
pub proof fn law_path_of_a_url(path: Seq<char>, query: Seq<char>)
    requires
        spelling::is_free_of(path, '?'),
    ensures
        routes::path_of(path) == path,
        routes::path_of(path.push('?') + query) == path,
{
    spelling::law_splitting(path, '?', query);
}

proof fn lemma_first_form_value(pairs: Seq<Seq<char>>, key: Seq<char>)
    ensures
        web::first_form_value(pairs, key) is None ==> forall|i: int|
            0 <= i < pairs.len() ==> !names_key(#[trigger] pairs[i], key),
        web::first_form_value(pairs, key) matches Some(x) ==> exists|i: int|
            0 <= i < pairs.len() && names_key(#[trigger] pairs[i], key) && value_of_pair(pairs[i]) == x && forall|j: int| 0 <= j < i ==> !names_key(#[trigger] pairs[j], key),
    decreases pairs.len(),
{
    if pairs.len() > 0 {
        let front = pairs.drop_last();
        let n = pairs.len() - 1;
        lemma_first_form_value(front, key);
        assert(pairs[n] == pairs.last());
        match web::first_form_value(front, key) {
            Some(x) => {
                let i = choose|i: int|
                    0 <= i < front.len() && names_key(#[trigger] front[i], key) && value_of_pair(front[i]) == x && forall|j: int|
                        0 <= j < i ==> !names_key(#[trigger] front[j], key);
                assert(pairs[i] == front[i]);
                assert forall|j: int| 0 <= j < i implies !names_key(#[trigger] pairs[j], key) by {
                    assert(!names_key(front[j], key));
                }
            },
            None => {
                assert forall|j: int| 0 <= j < n implies !names_key(#[trigger] pairs[j], key) by {
                    assert(!names_key(front[j], key));
                }
            },
        }
    }
}

/// Whether a pair of a query gives a value for a key: the key stands before its first
/// equals sign.
pub open spec fn names_key(pair: Seq<char>, key: Seq<char>) -> bool {
    match text::cut(pair, '=') {
        Some((k, _)) => k == key,
        None => false,
    }
}

/// The value that a pair of a query gives: what stands behind its first equals sign.
pub open spec fn value_of_pair(pair: Seq<char>) -> Seq<char> {
    match text::cut(pair, '=') {
        Some((_, v)) => v,
        None => Seq::empty(),
    }
}

/// The value of a key in a query is that of the first pair that names the key; the
/// pairs stand between ampersands, behind the question mark.
pub proof fn law_first_value_counts(
    path: Seq<char>,
    query: Seq<char>,
    key: Seq<char>,
)
    requires
        spelling::is_free_of(path, '?'),
        spelling::is_free_of(query, '?'),
    ensures
        web::raw_query_value(path, key) is None,
        ({
            let pairs = text::split(query, '&');
            let value = web::raw_query_value(path.push('?') + query, key);
            &&& value is None ==> forall|i: int|
                0 <= i < pairs.len() ==> !names_key(#[trigger] pairs[i], key)
            &&& value matches Some(x) ==> exists|i: int|
                0 <= i < pairs.len() && names_key(#[trigger] pairs[i], key) && value_of_pair(pairs[i]) == x && forall|j: int| 0 <= j < i ==> !names_key(#[trigger] pairs[j], key)
        }),
{
    spelling::law_splitting(path, '?', query);
    spelling::law_splitting(query, '?', query);
    let parts = text::split(path.push('?') + query, '?');
    assert(parts =~= seq![path, query]);
    lemma_first_form_value(text::split(query, '&'), key);
}

// ── requests to read ────────────────────────────────────────────────────

proof fn lemma_paths_to_read_differ()
    ensures
        "/"@.len() == 1,
        "/index"@.len() == 6,
        "/status"@.len() == 7,
        "/status/stream"@.len() == 14,
        "/shows"@.len() == 6,
        "/stats"@.len() == 6,
        "/history"@.len() == 8,
        "/health"@.len() == 7,
        "/library/browse"@.len() == 15,
        "/library/next-round"@.len() == 19,
        "/index"@[1] != "/shows"@[1],
        "/index"@[1] != "/stats"@[1],
        "/status"@[1] != "/health"@[1],
        "/shows"@[2] != "/stats"@[2],
{
    reveal_strlit("/");
    reveal_strlit("/index");
    reveal_strlit("/status");
    reveal_strlit("/status/stream");
    reveal_strlit("/shows");
    reveal_strlit("/stats");
    reveal_strlit("/history");
    reveal_strlit("/health");
    reveal_strlit("/library/browse");
    reveal_strlit("/library/next-round");
}

/// What is read at each path.
pub proof fn law_paths_to_read(url: Seq<char>)
    ensures
        ({
            let path = routes::path_of(url);
            let asked = routes::get_route(url);
            &&& path == "/"@ ==> asked is Index
            &&& path == "/status"@ ==> asked is Status
            &&& path == "/status/stream"@ ==> asked is StatusStream
            &&& path == "/shows"@ ==> asked is Shows
            &&& path == "/stats"@ ==> asked is Stats
            &&& path == "/history"@ ==> asked == GetRouteView::History(
                routes::query_text(url, "show"@),
            )
            &&& path == "/health"@ ==> asked is Health
            &&& path == "/library/next-round"@ ==> asked is NextRound
            &&& path == "/library/browse"@ && routes::query_text(url, "path"@).len() == 0 ==> asked
                is Drives
            &&& path == "/library/browse"@ && routes::query_text(url, "path"@).len() > 0 ==> asked
                == GetRouteView::Browse(routes::query_text(url, "path"@))
        }),
{
    lemma_paths_to_read_differ();
    reveal_strlit("/index");
    reveal_strlit("/status");
    reveal_strlit("/shows");
    reveal_strlit("/stats");
    reveal_strlit("/history");
    reveal_strlit("/health");
    reveal_strlit("/library/browse");
    reveal_strlit("/library/next-round");
    reveal_strlit("/status/stream");
    let path = routes::path_of(url);
    if text::starts_with(path, "/index"@) {
        assert(path.take(6)[1] == path[1]);
        assert(path[1] == 'i');
    }
}

// ── requests to change ──────────────────────────────────────────────────

proof fn lemma_paths_to_change_differ()
    ensures
        "/play-show"@.len() == 10,
        "/library/mark-watched"@.len() == 21,
        "/library/mark-unwatched"@.len() == 23,
        "/library/remove"@.len() == 15,
        "/library/update"@.len() == 15,
        "/pause"@.len() == 6,
        "/skip"@.len() == 5,
        "/prev"@.len() == 5,
        "/defer"@.len() == 6,
        "/round/remove-entry"@.len() == 19,
        "/round/reload"@.len() == 13,
        "/fullscreen"@.len() == 11,
        "/stay-on-top"@.len() == 12,
        "/window/minimize"@.len() == 16,
        "/window/maximize"@.len() == 16,
        "/window/close"@.len() == 13,
        "/window/begin-drag"@.len() == 18,
        "/sync-now"@.len() == 9,
        "/seek"@.len() == 5,
        "/volume"@.len() == 7,
        "/sub"@.len() == 4,
        "/audio"@.len() == 6,
        "/library/add"@.len() == 12,
        "/library/pick-folder"@.len() == 20,
        "/library/preview"@.len() == 16,
        "/library/rescan"@.len() == 15,
        "/library/rescan-watched"@.len() == 23,
        "/library/detect-unadded"@.len() == 23,
        "/library/detect-new-episodes"@.len() == 28,
        "/library/show-details"@.len() == 21,
        "/library/mark-watched"@[9] != "/library/show-details"@[9],
        "/library/mark-unwatched"@[9] != "/library/rescan-watched"@[9],
        "/library/mark-unwatched"@[9] != "/library/detect-unadded"@[9],
        "/library/remove"@[9] != "/library/update"@[9],
        "/library/remove"@[11] != "/library/rescan"@[11],
        "/library/update"@[9] != "/library/rescan"@[9],
        "/pause"@[1] != "/defer"@[1],
        "/pause"@[1] != "/audio"@[1],
        "/skip"@[1] != "/prev"@[1],
        "/skip"@[2] != "/seek"@[2],
        "/prev"@[1] != "/seek"@[1],
        "/defer"@[1] != "/audio"@[1],
        "/round/reload"@[1] != "/window/close"@[1],
        "/stay-on-top"@[1] != "/library/add"@[1],
        "/window/minimize"@[9] != "/window/maximize"@[9],
        "/window/minimize"@[1] != "/library/preview"@[1],
        "/window/maximize"@[1] != "/library/preview"@[1],
        "/library/rescan-watched"@[9] != "/library/detect-unadded"@[9],
{
    reveal_strlit("/play-show");
    reveal_strlit("/library/mark-watched");
    reveal_strlit("/library/mark-unwatched");
    reveal_strlit("/library/remove");
    reveal_strlit("/library/update");
    reveal_strlit("/pause");
    reveal_strlit("/skip");
    reveal_strlit("/prev");
    reveal_strlit("/defer");
    reveal_strlit("/round/remove-entry");
    reveal_strlit("/round/reload");
    reveal_strlit("/fullscreen");
    reveal_strlit("/stay-on-top");
    reveal_strlit("/window/minimize");
    reveal_strlit("/window/maximize");
    reveal_strlit("/window/close");
    reveal_strlit("/window/begin-drag");
    reveal_strlit("/sync-now");
    reveal_strlit("/seek");
    reveal_strlit("/volume");
    reveal_strlit("/sub");
    reveal_strlit("/audio");
    reveal_strlit("/library/add");
    reveal_strlit("/library/pick-folder");
    reveal_strlit("/library/preview");
    reveal_strlit("/library/rescan");
    reveal_strlit("/library/rescan-watched");
    reveal_strlit("/library/detect-unadded");
    reveal_strlit("/library/detect-new-episodes");
    reveal_strlit("/library/show-details");
}

/// What is changed of a show: each of these needs the id of one, and without it says
/// so.
pub proof fn law_paths_to_change_a_show(url: Seq<char>, body: JsonView)
    ensures
        ({
            let path = routes::path_of(url);
            let asked = routes::post_request(url, body);
            let id = json::text_field(body, "show_id"@);
            let needs = path == "/play-show"@ || path == "/library/mark-watched"@ || path
                == "/library/mark-unwatched"@ || path == "/library/remove"@ || path
                == "/library/update"@;
            &&& needs && id is None ==> asked is MissingShowId
            &&& path == "/play-show"@ && id is Some ==> asked == PostView::PlayShow(id->0)
            &&& path == "/library/mark-watched"@ && id is Some ==> asked == PostView::MarkWatched(
                id->0,
            )
            &&& path == "/library/mark-unwatched"@ && id is Some ==> asked
                == PostView::MarkUnwatched(id->0)
            &&& path == "/library/remove"@ && id is Some ==> asked == PostView::Remove(id->0)
            &&& path == "/library/update"@ && id is Some ==> asked == (PostView::Update {
                show_id: id->0,
                name: json::text_field(body, "name"@),
                root_path: json::text_field(body, "root_path"@),
                playlist: json::text_field(body, "playlist"@),
            })
        }),
{
    lemma_paths_to_change_differ();
}

/// What is asked of the player.
pub proof fn law_paths_to_play(url: Seq<char>, body: JsonView)
    ensures
        ({
            let path = routes::path_of(url);
            let asked = routes::post_request(url, body);
            let id = json::text_field(body, "episode_id"@);
            &&& path == "/pause"@ ==> asked == PostView::Pause(routes::pause_states(url))
            &&& path == "/skip"@ ==> asked is Skip
            &&& path == "/prev"@ ==> asked is Previous
            &&& path == "/defer"@ ==> asked is Defer
            &&& path == "/round/remove-entry"@ && id is None ==> asked is MissingEpisodeId
            &&& path == "/round/remove-entry"@ && id is Some ==> asked == PostView::RemoveEntry(
                id->0,
            )
            &&& path == "/round/reload"@ ==> asked is ReloadRound
            &&& path == "/sync-now"@ ==> asked is SyncNow
            &&& path == "/seek"@ ==> asked == PostView::Seek(routes::seek_by(body))
            &&& path == "/volume"@ ==> asked == PostView::Volume(
                routes::is_number(json::field(body, "volume"@)),
            )
            &&& path == "/audio"@ ==> asked == PostView::Audio(routes::named_track(body, "aid"@))
            &&& path == "/sub"@ && routes::named_track(body, "sid"@) is Some ==> asked
                == PostView::Sub(routes::named_track(body, "sid"@)->0)
            &&& path == "/sub"@ && routes::named_track(body, "sid"@) is None ==> asked
                == PostView::Sub("no"@)
        }),
{
    lemma_paths_to_change_differ();
}

/// What is asked of the window.
pub proof fn law_paths_to_the_window(url: Seq<char>, body: JsonView)
    ensures
        ({
            let path = routes::path_of(url);
            let asked = routes::post_request(url, body);
            &&& path == "/fullscreen"@ ==> asked is Fullscreen
            &&& path == "/stay-on-top"@ ==> asked == PostView::StayOnTop(
                json::bool_field(body, "on_top"@),
            )
            &&& path == "/window/minimize"@ ==> asked == PostView::Window(WindowAction::Minimize)
            &&& path == "/window/maximize"@ ==> asked == PostView::Window(WindowAction::Maximize)
            &&& path == "/window/close"@ ==> asked == PostView::Window(WindowAction::Close)
            &&& path == "/window/begin-drag"@ ==> asked == PostView::Window(WindowAction::BeginDrag)
        }),
{
    lemma_paths_to_change_differ();
}

/// What a field of a request says, and nothing where it is missing.
pub open spec fn said(body: JsonView, key: Seq<char>) -> Seq<char> {
    match json::field(body, key) {
        Some(JsonView::Text(t)) => t,
        _ => Seq::empty(),
    }
}

/// What is asked of the library.
pub proof fn law_paths_to_the_library(url: Seq<char>, body: JsonView)
    ensures
        ({
            let path = routes::path_of(url);
            let asked = routes::post_request(url, body);
            &&& path == "/library/add"@ ==> (asked matches PostView::Add { name, root_path, playlist }
                && name == text::trimmed(said(body, "name"@)) && root_path == text::trimmed(
                said(body, "root_path"@),
            ) && (json::text_field(body, "playlist"@) is Some ==> playlist == text::trimmed(
                said(body, "playlist"@),
            )) && (json::text_field(body, "playlist"@) is None ==> playlist == text::trimmed(
                "nelson"@,
            )))
            &&& path == "/library/pick-folder"@ ==> asked is PickFolder
            &&& path == "/library/preview"@ ==> asked == PostView::Preview(
                text::trimmed(said(body, "root_path"@)),
            )
            &&& path == "/library/rescan"@ ==> asked == (PostView::Rescan {
                show_id: said(body, "show_id"@),
                episodes: routes::named_episodes(body),
                watched: false,
            })
            &&& path == "/library/rescan-watched"@ ==> asked == (PostView::Rescan {
                show_id: said(body, "show_id"@),
                episodes: routes::named_episodes(body),
                watched: true,
            })
            &&& path == "/library/detect-unadded"@ ==> asked == PostView::DetectUnadded(
                text::trimmed(said(body, "parent_path"@)),
            )
            &&& path == "/library/detect-new-episodes"@ ==> asked is DetectNewEpisodes
            &&& path == "/library/show-details"@ ==> asked == PostView::ShowDetails(
                said(body, "show_id"@),
            )
        }),
{
    lemma_paths_to_change_differ();
}

/// What seeking goes by: a percentage where a number is given for it, else seconds
/// where a number is given for those, and otherwise nothing.
pub proof fn law_seek_goes_by(body: JsonView)
    ensures
        ({
            let percent = json::field(body, "percent"@);
            let seconds = json::field(body, "seconds"@);
            let by_percent = percent is Some && (percent->0 is Int || percent->0 is Real);
            let by_seconds = seconds is Some && (seconds->0 is Int || seconds->0 is Real);
            let by = routes::seek_by(body);
            &&& by_percent ==> by == Some(routes::SeekBy::Percent)
            &&& !by_percent && by_seconds ==> by == Some(routes::SeekBy::Seconds)
            &&& !by_percent && !by_seconds ==> by is None
        }),
{
}

/// The episodes that a rescan names are the texts of its list, in order.
pub proof fn law_named_episodes(items: Seq<JsonView>)
    ensures
        routes::texts_in(items) == items.filter(|x: JsonView| x is Text).map_values(
            |x: JsonView| x->Text_0,
        ),
    decreases items.len(),
{
    reveal(Seq::filter);
    let is_text = |x: JsonView| x is Text;
    let spelled = |x: JsonView| x->Text_0;
    if items.len() > 0 {
        let front = items.drop_last();
        law_named_episodes(front);
        if items.last() is Text {
            assert(items.filter(is_text).map_values(spelled) =~= front.filter(is_text).map_values(
                spelled,
            ).push(items.last()->Text_0));
        }
    } else {
        assert(items.filter(is_text).map_values(spelled) =~= Seq::empty());
    }
}

/// The states that a pause names are those of its pairs that say true or false, in
/// order.
pub proof fn law_named_states(pairs: Seq<Seq<char>>)
    ensures
        routes::named_states(pairs) == pairs.filter(
            |p: Seq<char>| p == "state=true"@ || p == "state=false"@,
        ).map_values(|p: Seq<char>| p == "state=true"@),
    decreases pairs.len(),
{
    reveal_strlit("state=true");
    reveal_strlit("state=false");
    reveal(Seq::filter);
    let names = |p: Seq<char>| p == "state=true"@ || p == "state=false"@;
    let says = |p: Seq<char>| p == "state=true"@;
    if pairs.len() > 0 {
        let front = pairs.drop_last();
        law_named_states(front);
        if names(pairs.last()) {
            assert(pairs.filter(names).map_values(says) =~= front.filter(names).map_values(
                says,
            ).push(says(pairs.last())));
        }
    } else {
        assert(pairs.filter(names).map_values(says) =~= Seq::empty());
    }
}

// ── files ───────────────────────────────────────────────────────────────

proof fn lemma_extensions_differ()
    ensures
        "html"@.len() == 4,
        "js"@.len() == 2,
        "mjs"@.len() == 3,
        "css"@.len() == 3,
        "json"@.len() == 4,
        "svg"@.len() == 3,
        "png"@.len() == 3,
        "jpg"@.len() == 3,
        "jpeg"@.len() == 4,
        "woff2"@.len() == 5,
        "woff"@.len() == 4,
        "ico"@.len() == 3,
        "html"@[0] != "json"@[0],
        "html"@[0] != "jpeg"@[0],
        "html"@[0] != "woff"@[0],
        "mjs"@[0] != "css"@[0],
        "mjs"@[0] != "svg"@[0],
        "mjs"@[0] != "png"@[0],
        "mjs"@[0] != "jpg"@[0],
        "mjs"@[0] != "ico"@[0],
        "css"@[0] != "svg"@[0],
        "css"@[0] != "png"@[0],
        "css"@[0] != "jpg"@[0],
        "css"@[0] != "ico"@[0],
        "json"@[1] != "jpeg"@[1],
        "json"@[0] != "woff"@[0],
        "svg"@[0] != "png"@[0],
        "svg"@[0] != "jpg"@[0],
        "svg"@[0] != "ico"@[0],
        "png"@[0] != "jpg"@[0],
        "png"@[0] != "ico"@[0],
        "jpg"@[0] != "ico"@[0],
        "jpeg"@[0] != "woff"@[0],
{
    reveal_strlit("html");
    reveal_strlit("js");
    reveal_strlit("mjs");
    reveal_strlit("css");
    reveal_strlit("json");
    reveal_strlit("svg");
    reveal_strlit("png");
    reveal_strlit("jpg");
    reveal_strlit("jpeg");
    reveal_strlit("woff2");
    reveal_strlit("woff");
    reveal_strlit("ico");
}

/// What a file is served as, by its extension; bytes where it is not known.
pub proof fn law_types_of_files(extension: Seq<char>)
    ensures
        extension == "html"@ ==> routes::type_of(extension) == "text/html; charset=utf-8"@,
        extension == "js"@ ==> routes::type_of(extension) == "text/javascript"@,
        extension == "mjs"@ ==> routes::type_of(extension) == "text/javascript"@,
        extension == "css"@ ==> routes::type_of(extension) == "text/css"@,
        extension == "json"@ ==> routes::type_of(extension) == "application/json"@,
        extension == "svg"@ ==> routes::type_of(extension) == "image/svg+xml"@,
        extension == "png"@ ==> routes::type_of(extension) == "image/png"@,
        extension == "jpg"@ ==> routes::type_of(extension) == "image/jpeg"@,
        extension == "jpeg"@ ==> routes::type_of(extension) == "image/jpeg"@,
        extension == "woff2"@ ==> routes::type_of(extension) == "font/woff2"@,
        extension == "woff"@ ==> routes::type_of(extension) == "font/woff"@,
        extension == "ico"@ ==> routes::type_of(extension) == "image/x-icon"@,
        !(seq![
            "html"@,
            "js"@,
            "mjs"@,
            "css"@,
            "json"@,
            "svg"@,
            "png"@,
            "jpg"@,
            "jpeg"@,
            "woff2"@,
            "woff"@,
            "ico"@,
        ].contains(extension)) ==> routes::type_of(extension) == "application/octet-stream"@,
{
    lemma_extensions_differ();
    let known = seq![
        "html"@,
        "js"@,
        "mjs"@,
        "css"@,
        "json"@,
        "svg"@,
        "png"@,
        "jpg"@,
        "jpeg"@,
        "woff2"@,
        "woff"@,
        "ico"@,
    ];
    assert(known[0] == "html"@ && known[1] == "js"@ && known[2] == "mjs"@ && known[3] == "css"@);
    assert(known[4] == "json"@ && known[5] == "svg"@ && known[6] == "png"@ && known[7] == "jpg"@);
    assert(known[8] == "jpeg"@ && known[9] == "woff2"@ && known[10] == "woff"@ && known[11]
        == "ico"@);
}

} // verus!
