//! What a request to the control server asks for.

use serde_json::Value;
use vstd::prelude::*;
use vstd::utf8::*;

use crate::json;
use crate::json::JsonView;
use crate::text;
use crate::web;

verus! {

// ── reading ─────────────────────────────────────────────────────────────

/// What a request to read asks for.
#[derive(Debug, Clone)]
pub enum GetRoute {
    Index,
    Status,
    StatusStream,
    Shows,
    Stats,
    /// The plays of a show.
    History(String),
    Health,
    Drives,
    /// The folders in a folder.
    Browse(String),
    NextRound,
    /// A file of the overlay.
    Static(String),
}

#[verifier::ext_equal]
pub enum GetRouteView {
    Index,
    Status,
    StatusStream,
    Shows,
    Stats,
    History(Seq<char>),
    Health,
    Drives,
    Browse(Seq<char>),
    NextRound,
    Static(Seq<char>),
}

impl DeepView for GetRoute {
    type V = GetRouteView;

    open spec fn deep_view(&self) -> GetRouteView {
        match self {
            GetRoute::Index => GetRouteView::Index,
            GetRoute::Status => GetRouteView::Status,
            GetRoute::StatusStream => GetRouteView::StatusStream,
            GetRoute::Shows => GetRouteView::Shows,
            GetRoute::Stats => GetRouteView::Stats,
            GetRoute::History(s) => GetRouteView::History(s@),
            GetRoute::Health => GetRouteView::Health,
            GetRoute::Drives => GetRouteView::Drives,
            GetRoute::Browse(s) => GetRouteView::Browse(s@),
            GetRoute::NextRound => GetRouteView::NextRound,
            GetRoute::Static(s) => GetRouteView::Static(s@),
        }
    }
}

/// The path of an address: what stands before its query.
pub open spec fn path_of(url: Seq<char>) -> Seq<char> {
    text::split(url, '?')[0]
}

/// A value of the query, decoded; empty where it is not there.
pub open spec fn query_text(url: Seq<char>, key: Seq<char>) -> Seq<char> {
    match web::raw_query_value(url, key) {
        Some(v) => web::lossy_text(web::form_bytes(encode_utf8(v))),
        None => Seq::empty(),
    }
}

/// A path without the slashes that it begins with.
pub open spec fn unrooted(path: Seq<char>) -> Seq<char>
    decreases path.len(),
{
    if path.len() > 0 && path[0] == '/' {
        unrooted(path.drop_first())
    } else {
        path
    }
}

/// What a request to read asks for.
pub open spec fn get_route(url: Seq<char>) -> GetRouteView {
    let path = path_of(url);
    if path == "/"@ || text::starts_with(path, "/index"@) {
        GetRouteView::Index
    } else if path == "/status"@ {
        GetRouteView::Status
    } else if path == "/status/stream"@ {
        GetRouteView::StatusStream
    } else if path == "/shows"@ {
        GetRouteView::Shows
    } else if path == "/stats"@ {
        GetRouteView::Stats
    } else if path == "/history"@ {
        GetRouteView::History(query_text(url, "show"@))
    } else if path == "/health"@ {
        GetRouteView::Health
    } else if path == "/library/browse"@ {
        if query_text(url, "path"@).len() == 0 {
            GetRouteView::Drives
        } else {
            GetRouteView::Browse(query_text(url, "path"@))
        }
    } else if path == "/library/next-round"@ {
        GetRouteView::NextRound
    } else {
        GetRouteView::Static(unrooted(path))
    }
}

/// The path of an address.
pub fn url_path(url: &str) -> (r: String)
    ensures
        r@ == path_of(url@),
{
    let parts = text::split_text(url, '?');
    assert(parts.deep_view()[0] == parts@[0]@);
    parts[0].clone()
}

fn query_or_empty(url: &str, key: &str) -> (r: String)
    ensures
        r@ == query_text(url@, key@),
{
    match web::query_param(url, key) {
        Some(v) => v,
        None => String::new(),
    }
}

/// A path without the slashes that it begins with.
pub fn static_name(path: &str) -> (r: String)
    ensures
        r@ == unrooted(path@),
{
    let chars = text::chars_of(path);
    let mut i: usize = 0;
    assert(path@.skip(0) =~= path@);
    while i < chars.len() && chars[i] == '/'
        invariant
            i <= chars@.len(),
            chars@ == path@,
            unrooted(path@) == unrooted(path@.skip(i as int)),
        decreases chars.len() - i,
    {
        assert(path@.skip(i as int).drop_first() =~= path@.skip(i + 1));
        i = i + 1;
    }
    let r = text::text_between(&chars, i, chars.len());
    assert(r@ =~= path@.skip(i as int));
    r
}

/// Says what a request to read asks for.
pub fn route_get(url: &str) -> (r: GetRoute)
    ensures
        r.deep_view() == get_route(url@),
{
    let path = url_path(url);
    let p = path.as_str();
    if text::same_text(p, "/") {
        return GetRoute::Index;
    }
    match text::strip_start(p, "/index") {
        Some(_) => {
            return GetRoute::Index;
        },
        None => {},
    }
    if text::same_text(p, "/status") {
        GetRoute::Status
    } else if text::same_text(p, "/status/stream") {
        GetRoute::StatusStream
    } else if text::same_text(p, "/shows") {
        GetRoute::Shows
    } else if text::same_text(p, "/stats") {
        GetRoute::Stats
    } else if text::same_text(p, "/history") {
        GetRoute::History(query_or_empty(url, "show"))
    } else if text::same_text(p, "/health") {
        GetRoute::Health
    } else if text::same_text(p, "/library/browse") {
        let target = query_or_empty(url, "path");
        if target.as_str().is_empty() {
            GetRoute::Drives
        } else {
            GetRoute::Browse(target)
        }
    } else if text::same_text(p, "/library/next-round") {
        GetRoute::NextRound
    } else {
        GetRoute::Static(static_name(p))
    }
}

// ── changing ────────────────────────────────────────────────────────────

#[derive(Debug, Clone, Copy, PartialEq, Eq, Structural)]
pub enum WindowAction {
    Minimize,
    Maximize,
    Close,
    BeginDrag,
}

/// By what a seek goes.
#[derive(Debug, Clone, Copy, PartialEq, Eq, Structural)]
pub enum SeekBy {
    Percent,
    Seconds,
}

/// What a request to change something asks for.
#[derive(Debug, Clone)]
pub enum PostRequest {
    /// The pause states that are named; none asks to toggle.
    Pause(Vec<bool>),
    Skip,
    Previous,
    PlayShow(String),
    MarkWatched(String),
    MarkUnwatched(String),
    Defer,
    RemoveEntry(String),
    ReloadRound,
    Fullscreen,
    StayOnTop(Option<bool>),
    Window(WindowAction),
    SyncNow,
    Seek(Option<SeekBy>),
    /// Whether a volume is named.
    Volume(bool),
    Sub(String),
    Audio(Option<String>),
    Add { name: String, root_path: String, playlist: String },
    Remove(String),
    Update {
        show_id: String,
        name: Option<String>,
        root_path: Option<String>,
        playlist: Option<String>,
    },
    PickFolder,
    Preview(String),
    Rescan { show_id: String, episodes: Option<Vec<String>>, watched: bool },
    DetectUnadded(String),
    DetectNewEpisodes,
    ShowDetails(String),
    MissingShowId,
    MissingEpisodeId,
    NotFound,
}

#[verifier::ext_equal]
pub enum PostView {
    Pause(Seq<bool>),
    Skip,
    Previous,
    PlayShow(Seq<char>),
    MarkWatched(Seq<char>),
    MarkUnwatched(Seq<char>),
    Defer,
    RemoveEntry(Seq<char>),
    ReloadRound,
    Fullscreen,
    StayOnTop(Option<bool>),
    Window(WindowAction),
    SyncNow,
    Seek(Option<SeekBy>),
    Volume(bool),
    Sub(Seq<char>),
    Audio(Option<Seq<char>>),
    Add { name: Seq<char>, root_path: Seq<char>, playlist: Seq<char> },
    Remove(Seq<char>),
    Update {
        show_id: Seq<char>,
        name: Option<Seq<char>>,
        root_path: Option<Seq<char>>,
        playlist: Option<Seq<char>>,
    },
    PickFolder,
    Preview(Seq<char>),
    Rescan { show_id: Seq<char>, episodes: Option<Seq<Seq<char>>>, watched: bool },
    DetectUnadded(Seq<char>),
    DetectNewEpisodes,
    ShowDetails(Seq<char>),
    MissingShowId,
    MissingEpisodeId,
    NotFound,
}

impl DeepView for PostRequest {
    type V = PostView;

    open spec fn deep_view(&self) -> PostView {
        match self {
            PostRequest::Pause(s) => PostView::Pause(s@),
            PostRequest::Skip => PostView::Skip,
            PostRequest::Previous => PostView::Previous,
            PostRequest::PlayShow(s) => PostView::PlayShow(s@),
            PostRequest::MarkWatched(s) => PostView::MarkWatched(s@),
            PostRequest::MarkUnwatched(s) => PostView::MarkUnwatched(s@),
            PostRequest::Defer => PostView::Defer,
            PostRequest::RemoveEntry(s) => PostView::RemoveEntry(s@),
            PostRequest::ReloadRound => PostView::ReloadRound,
            PostRequest::Fullscreen => PostView::Fullscreen,
            PostRequest::StayOnTop(b) => PostView::StayOnTop(*b),
            PostRequest::Window(a) => PostView::Window(*a),
            PostRequest::SyncNow => PostView::SyncNow,
            PostRequest::Seek(b) => PostView::Seek(*b),
            PostRequest::Volume(b) => PostView::Volume(*b),
            PostRequest::Sub(s) => PostView::Sub(s@),
            PostRequest::Audio(s) => PostView::Audio(s.deep_view()),
            PostRequest::Add { name, root_path, playlist } => PostView::Add {
                name: name@,
                root_path: root_path@,
                playlist: playlist@,
            },
            PostRequest::Remove(s) => PostView::Remove(s@),
            PostRequest::Update { show_id, name, root_path, playlist } => PostView::Update {
                show_id: show_id@,
                name: name.deep_view(),
                root_path: root_path.deep_view(),
                playlist: playlist.deep_view(),
            },
            PostRequest::PickFolder => PostView::PickFolder,
            PostRequest::Preview(s) => PostView::Preview(s@),
            PostRequest::Rescan { show_id, episodes, watched } => PostView::Rescan {
                show_id: show_id@,
                episodes: episodes.deep_view(),
                watched: *watched,
            },
            PostRequest::DetectUnadded(s) => PostView::DetectUnadded(s@),
            PostRequest::DetectNewEpisodes => PostView::DetectNewEpisodes,
            PostRequest::ShowDetails(s) => PostView::ShowDetails(s@),
            PostRequest::MissingShowId => PostView::MissingShowId,
            PostRequest::MissingEpisodeId => PostView::MissingEpisodeId,
            PostRequest::NotFound => PostView::NotFound,
        }
    }
}

/// The pause states that are named, in order.
pub open spec fn named_states(pairs: Seq<Seq<char>>) -> Seq<bool>
    decreases pairs.len(),
{
    if pairs.len() == 0 {
        Seq::empty()
    } else {
        let before = named_states(pairs.drop_last());
        if pairs.last() == "state=true"@ {
            before.push(true)
        } else if pairs.last() == "state=false"@ {
            before.push(false)
        } else {
            before
        }
    }
}

pub open spec fn pause_states(url: Seq<char>) -> Seq<bool> {
    let parts = text::split(url, '?');
    if parts.len() < 2 {
        Seq::empty()
    } else {
        named_states(text::split(parts[1], '&'))
    }
}

pub open spec fn or_empty(s: Option<Seq<char>>) -> Seq<char> {
    match s {
        Some(t) => t,
        None => Seq::empty(),
    }
}

/// A track as a body names it: a text, or a number, which is spelled.
pub open spec fn named_track(body: JsonView, key: Seq<char>) -> Option<Seq<char>> {
    match json::text_field(body, key) {
        Some(s) => Some(s),
        None => match json::int_field(body, key) {
            Some(n) => Some(text::signed_decimal(n as int)),
            None => None,
        },
    }
}

pub open spec fn is_number(v: Option<JsonView>) -> bool {
    match v {
        Some(JsonView::Int(_)) => true,
        Some(JsonView::Real(_)) => true,
        _ => false,
    }
}

pub open spec fn seek_by(body: JsonView) -> Option<SeekBy> {
    if is_number(json::field(body, "percent"@)) {
        Some(SeekBy::Percent)
    } else if is_number(json::field(body, "seconds"@)) {
        Some(SeekBy::Seconds)
    } else {
        None
    }
}

/// The texts of a list, in order; what is no text is passed over.
pub open spec fn texts_in(items: Seq<JsonView>) -> Seq<Seq<char>>
    decreases items.len(),
{
    if items.len() == 0 {
        Seq::empty()
    } else {
        match json::text_in(items.last()) {
            Some(t) => texts_in(items.drop_last()).push(t),
            None => texts_in(items.drop_last()),
        }
    }
}

pub open spec fn named_episodes(body: JsonView) -> Option<Seq<Seq<char>>> {
    match json::field(body, "episodes"@) {
        Some(JsonView::List(items)) => Some(texts_in(items)),
        _ => None,
    }
}

/// A request that names a show.
pub open spec fn on_show(path: Seq<char>, id: Seq<char>, body: JsonView) -> PostView {
    if path == "/play-show"@ {
        PostView::PlayShow(id)
    } else if path == "/library/mark-watched"@ {
        PostView::MarkWatched(id)
    } else if path == "/library/mark-unwatched"@ {
        PostView::MarkUnwatched(id)
    } else if path == "/library/remove"@ {
        PostView::Remove(id)
    } else {
        PostView::Update {
            show_id: id,
            name: json::text_field(body, "name"@),
            root_path: json::text_field(body, "root_path"@),
            playlist: json::text_field(body, "playlist"@),
        }
    }
}

/// The requests that cannot do without a show.
pub open spec fn needs_show(path: Seq<char>) -> bool {
    ||| path == "/play-show"@
    ||| path == "/library/mark-watched"@
    ||| path == "/library/mark-unwatched"@
    ||| path == "/library/remove"@
    ||| path == "/library/update"@
}

/// The requests to the library that name a folder or a show, or neither.
pub open spec fn on_library(path: Seq<char>, body: JsonView) -> PostView {
    let id = or_empty(json::text_field(body, "show_id"@));
    if path == "/library/add"@ {
        PostView::Add {
            name: text::trimmed(or_empty(json::text_field(body, "name"@))),
            root_path: text::trimmed(or_empty(json::text_field(body, "root_path"@))),
            playlist: text::trimmed(
                match json::text_field(body, "playlist"@) {
                    Some(p) => p,
                    None => "nelson"@,
                },
            ),
        }
    } else if path == "/library/pick-folder"@ {
        PostView::PickFolder
    } else if path == "/library/preview"@ {
        PostView::Preview(text::trimmed(or_empty(json::text_field(body, "root_path"@))))
    } else if path == "/library/rescan"@ {
        PostView::Rescan { show_id: id, episodes: named_episodes(body), watched: false }
    } else if path == "/library/rescan-watched"@ {
        PostView::Rescan { show_id: id, episodes: named_episodes(body), watched: true }
    } else if path == "/library/detect-unadded"@ {
        PostView::DetectUnadded(
            text::trimmed(or_empty(json::text_field(body, "parent_path"@))),
        )
    } else if path == "/library/detect-new-episodes"@ {
        PostView::DetectNewEpisodes
    } else if path == "/library/show-details"@ {
        PostView::ShowDetails(id)
    } else {
        PostView::NotFound
    }
}

/// The requests to the player and its window.
pub open spec fn on_player(url: Seq<char>, path: Seq<char>, body: JsonView) -> PostView {
    if path == "/pause"@ {
        PostView::Pause(pause_states(url))
    } else if path == "/skip"@ {
        PostView::Skip
    } else if path == "/prev"@ {
        PostView::Previous
    } else if path == "/defer"@ {
        PostView::Defer
    } else if path == "/round/remove-entry"@ {
        match json::text_field(body, "episode_id"@) {
            Some(id) => PostView::RemoveEntry(id),
            None => PostView::MissingEpisodeId,
        }
    } else if path == "/round/reload"@ {
        PostView::ReloadRound
    } else if path == "/fullscreen"@ {
        PostView::Fullscreen
    } else if path == "/stay-on-top"@ {
        PostView::StayOnTop(json::bool_field(body, "on_top"@))
    } else if path == "/window/minimize"@ {
        PostView::Window(WindowAction::Minimize)
    } else if path == "/window/maximize"@ {
        PostView::Window(WindowAction::Maximize)
    } else if path == "/window/close"@ {
        PostView::Window(WindowAction::Close)
    } else if path == "/window/begin-drag"@ {
        PostView::Window(WindowAction::BeginDrag)
    } else if path == "/sync-now"@ {
        PostView::SyncNow
    } else if path == "/seek"@ {
        PostView::Seek(seek_by(body))
    } else if path == "/volume"@ {
        PostView::Volume(is_number(json::field(body, "volume"@)))
    } else if path == "/sub"@ {
        PostView::Sub(
            match named_track(body, "sid"@) {
                Some(s) => s,
                None => "no"@,
            },
        )
    } else if path == "/audio"@ {
        PostView::Audio(named_track(body, "aid"@))
    } else {
        on_library(path, body)
    }
}

/// What a request to change something asks for.
pub open spec fn post_request(url: Seq<char>, body: JsonView) -> PostView {
    let path = path_of(url);
    if needs_show(path) {
        match json::text_field(body, "show_id"@) {
            Some(id) => on_show(path, id, body),
            None => PostView::MissingShowId,
        }
    } else {
        on_player(url, path, body)
    }
}

/// The body of a request: an empty record where there is none, or none that can
/// be read.
pub open spec fn body_of(sent: Option<Seq<char>>) -> JsonView {
    match sent {
        Some(s) => if s.len() == 0 {
            json::empty_record()
        } else {
            match json::json_parse(s) {
                Ok(v) => v,
                Err(_) => json::empty_record(),
            }
        },
        None => json::empty_record(),
    }
}

/// Reads the body of a request.
pub fn read_body(sent: Option<&str>) -> (r: Value)
    ensures
        json::json_view(r) == body_of(sent.deep_view()),
{
    match sent {
        Some(s) => {
            if s.is_empty() {
                json::record()
            } else {
                match json::parse(s) {
                    Ok(v) => v,
                    Err(_) => json::record(),
                }
            }
        },
        None => json::record(),
    }
}

fn states_of(url: &str) -> (r: Vec<bool>)
    ensures
        r@ == pause_states(url@),
{
    let mut out: Vec<bool> = Vec::new();
    let parts = text::split_text(url, '?');
    if parts.len() < 2 {
        assert(out@ =~= Seq::empty());
        return out;
    }
    assert(parts.deep_view()[1] == parts@[1]@);
    let pairs = text::split_text(parts[1].as_str(), '&');
    let ghost pv = pairs.deep_view();
    let mut i: usize = 0;
    assert(out@ =~= named_states(pv.take(0)));
    while i < pairs.len()
        invariant
            i <= pairs@.len(),
            pv == pairs.deep_view(),
            out@ == named_states(pv.take(i as int)),
        decreases pairs.len() - i,
    {
        proof {
            assert(pv[i as int] == pairs@[i as int]@);
            assert(pv.take(i + 1).drop_last() =~= pv.take(i as int));
            assert(pv.take(i + 1).last() == pv[i as int]);
            reveal_strlit("state=true");
            reveal_strlit("state=false");
        }
        if text::same_text(pairs[i].as_str(), "state=true") {
            out.push(true);
        } else if text::same_text(pairs[i].as_str(), "state=false") {
            out.push(false);
        }
        i = i + 1;
    }
    assert(pv.take(i as int) =~= pv);
    out
}

fn text_or_empty(body: &Value, key: &str) -> (r: String)
    ensures
        r@ == or_empty(json::text_field(json::json_view(*body), key@)),
{
    match json::get_text(body, key) {
        Some(t) => t.to_owned(),
        None => String::new(),
    }
}

fn maybe_owned(body: &Value, key: &str) -> (r: Option<String>)
    ensures
        r.deep_view() == json::text_field(json::json_view(*body), key@),
{
    match json::get_text(body, key) {
        Some(t) => Some(t.to_owned()),
        None => None,
    }
}

fn track_of(body: &Value, key: &str) -> (r: Option<String>)
    ensures
        r.deep_view() == named_track(json::json_view(*body), key@),
{
    match json::get_text(body, key) {
        Some(s) => Some(s.to_owned()),
        None => match json::get_int(body, key) {
            Some(n) => Some(text::spell_signed(n)),
            None => None,
        },
    }
}

fn has_number(body: &Value, key: &str) -> (r: bool)
    ensures
        r == is_number(json::field(json::json_view(*body), key@)),
{
    match json::get_field(body, key) {
        Some(v) => v.is_number(),
        None => false,
    }
}

fn episodes_of(body: &Value) -> (r: Option<Vec<String>>)
    ensures
        r.deep_view() == named_episodes(json::json_view(*body)),
{
    let list = match json::get_field(body, "episodes") {
        Some(v) => v,
        None => {
            return None;
        },
    };
    match list.as_array() {
        Some(items) => {
            let ghost iv = json::views(items@);
            let mut out: Vec<String> = Vec::new();
            let mut i: usize = 0;
            assert(out.deep_view() =~= texts_in(iv.take(0)));
            while i < items.len()
                invariant
                    i <= items@.len(),
                    iv == json::views(items@),
                    out.deep_view() == texts_in(iv.take(i as int)),
                decreases items.len() - i,
            {
                proof {
                    assert(iv[i as int] == json::json_view(items@[i as int]));
                    assert(iv.take(i + 1).drop_last() =~= iv.take(i as int));
                    assert(iv.take(i + 1).last() == iv[i as int]);
                }
                match items[i].as_str() {
                    Some(t) => {
                        let ghost before = out.deep_view();
                        out.push(t.to_owned());
                        assert(out.deep_view() =~= before.push(t@));
                    },
                    None => {},
                }
                i = i + 1;
            }
            assert(iv.take(i as int) =~= iv);
            Some(out)
        },
        None => None,
    }
}

fn route_show(path: &str, id: &str, body: &Value) -> (r: PostRequest)
    ensures
        r.deep_view() == on_show(path@, id@, json::json_view(*body)),
{
    if text::same_text(path, "/play-show") {
        PostRequest::PlayShow(id.to_owned())
    } else if text::same_text(path, "/library/mark-watched") {
        PostRequest::MarkWatched(id.to_owned())
    } else if text::same_text(path, "/library/mark-unwatched") {
        PostRequest::MarkUnwatched(id.to_owned())
    } else if text::same_text(path, "/library/remove") {
        PostRequest::Remove(id.to_owned())
    } else {
        PostRequest::Update {
            show_id: id.to_owned(),
            name: maybe_owned(body, "name"),
            root_path: maybe_owned(body, "root_path"),
            playlist: maybe_owned(body, "playlist"),
        }
    }
}

fn route_library(path: &str, body: &Value) -> (r: PostRequest)
    ensures
        r.deep_view() == on_library(path@, json::json_view(*body)),
{
    if text::same_text(path, "/library/add") {
        let playlist = match json::get_text(body, "playlist") {
            Some(p) => text::trim_text(p),
            None => text::trim_text("nelson"),
        };
        PostRequest::Add {
            name: text::trim_text(text_or_empty(body, "name").as_str()),
            root_path: text::trim_text(text_or_empty(body, "root_path").as_str()),
            playlist,
        }
    } else if text::same_text(path, "/library/pick-folder") {
        PostRequest::PickFolder
    } else if text::same_text(path, "/library/preview") {
        PostRequest::Preview(text::trim_text(text_or_empty(body, "root_path").as_str()))
    } else if text::same_text(path, "/library/rescan") {
        PostRequest::Rescan {
            show_id: text_or_empty(body, "show_id"),
            episodes: episodes_of(body),
            watched: false,
        }
    } else if text::same_text(path, "/library/rescan-watched") {
        PostRequest::Rescan {
            show_id: text_or_empty(body, "show_id"),
            episodes: episodes_of(body),
            watched: true,
        }
    } else if text::same_text(path, "/library/detect-unadded") {
        PostRequest::DetectUnadded(text::trim_text(text_or_empty(body, "parent_path").as_str()))
    } else if text::same_text(path, "/library/detect-new-episodes") {
        PostRequest::DetectNewEpisodes
    } else if text::same_text(path, "/library/show-details") {
        PostRequest::ShowDetails(text_or_empty(body, "show_id"))
    } else {
        PostRequest::NotFound
    }
}

fn route_window(path: &str) -> (r: Option<WindowAction>)
    ensures
        r == if path@ == "/window/minimize"@ {
            Some(WindowAction::Minimize)
        } else if path@ == "/window/maximize"@ {
            Some(WindowAction::Maximize)
        } else if path@ == "/window/close"@ {
            Some(WindowAction::Close)
        } else if path@ == "/window/begin-drag"@ {
            Some(WindowAction::BeginDrag)
        } else {
            None
        },
{
    if text::same_text(path, "/window/minimize") {
        Some(WindowAction::Minimize)
    } else if text::same_text(path, "/window/maximize") {
        Some(WindowAction::Maximize)
    } else if text::same_text(path, "/window/close") {
        Some(WindowAction::Close)
    } else if text::same_text(path, "/window/begin-drag") {
        Some(WindowAction::BeginDrag)
    } else {
        None
    }
}

fn route_player(url: &str, path: &str, body: &Value) -> (r: PostRequest)
    ensures
        r.deep_view() == on_player(url@, path@, json::json_view(*body)),
{
    if text::same_text(path, "/pause") {
        return PostRequest::Pause(states_of(url));
    } else if text::same_text(path, "/skip") {
        return PostRequest::Skip;
    } else if text::same_text(path, "/prev") {
        return PostRequest::Previous;
    } else if text::same_text(path, "/defer") {
        return PostRequest::Defer;
    } else if text::same_text(path, "/round/remove-entry") {
        return match json::get_text(body, "episode_id") {
            Some(id) => PostRequest::RemoveEntry(id.to_owned()),
            None => PostRequest::MissingEpisodeId,
        };
    } else if text::same_text(path, "/round/reload") {
        return PostRequest::ReloadRound;
    } else if text::same_text(path, "/fullscreen") {
        return PostRequest::Fullscreen;
    } else if text::same_text(path, "/stay-on-top") {
        return PostRequest::StayOnTop(json::get_bool(body, "on_top"));
    }
    match route_window(path) {
        Some(action) => {
            return PostRequest::Window(action);
        },
        None => {},
    }
    if text::same_text(path, "/sync-now") {
        PostRequest::SyncNow
    } else if text::same_text(path, "/seek") {
        if has_number(body, "percent") {
            PostRequest::Seek(Some(SeekBy::Percent))
        } else if has_number(body, "seconds") {
            PostRequest::Seek(Some(SeekBy::Seconds))
        } else {
            PostRequest::Seek(None)
        }
    } else if text::same_text(path, "/volume") {
        PostRequest::Volume(has_number(body, "volume"))
    } else if text::same_text(path, "/sub") {
        match track_of(body, "sid") {
            Some(s) => PostRequest::Sub(s),
            None => PostRequest::Sub("no".to_owned()),
        }
    } else if text::same_text(path, "/audio") {
        PostRequest::Audio(track_of(body, "aid"))
    } else {
        route_library(path, body)
    }
}

/// Says what a request to change something asks for.
pub fn route_post(url: &str, body: &Value) -> (r: PostRequest)
    ensures
        r.deep_view() == post_request(url@, json::json_view(*body)),
{
    let path = url_path(url);
    let p = path.as_str();
    if text::same_text(p, "/play-show") || text::same_text(p, "/library/mark-watched")
        || text::same_text(p, "/library/mark-unwatched") || text::same_text(p, "/library/remove")
        || text::same_text(p, "/library/update") {
        match json::get_text(body, "show_id") {
            Some(id) => route_show(p, id, body),
            None => PostRequest::MissingShowId,
        }
    } else {
        route_player(url, p, body)
    }
}

// ── files of the overlay ────────────────────────────────────────────────

pub open spec fn type_of(extension: Seq<char>) -> Seq<char> {
    if extension == "html"@ {
        "text/html; charset=utf-8"@
    } else if extension == "js"@ || extension == "mjs"@ {
        "text/javascript"@
    } else if extension == "css"@ {
        "text/css"@
    } else if extension == "json"@ {
        "application/json"@
    } else if extension == "svg"@ {
        "image/svg+xml"@
    } else if extension == "png"@ {
        "image/png"@
    } else if extension == "jpg"@ || extension == "jpeg"@ {
        "image/jpeg"@
    } else if extension == "woff2"@ {
        "font/woff2"@
    } else if extension == "woff"@ {
        "font/woff"@
    } else if extension == "ico"@ {
        "image/x-icon"@
    } else {
        "application/octet-stream"@
    }
}

/// The type of a file with an extension.
pub fn content_type(extension: &str) -> (r: &'static str)
    ensures
        r@ == type_of(extension@),
{
    if text::same_text(extension, "html") {
        "text/html; charset=utf-8"
    } else if text::same_text(extension, "js") || text::same_text(extension, "mjs") {
        "text/javascript"
    } else if text::same_text(extension, "css") {
        "text/css"
    } else if text::same_text(extension, "json") {
        "application/json"
    } else if text::same_text(extension, "svg") {
        "image/svg+xml"
    } else if text::same_text(extension, "png") {
        "image/png"
    } else if text::same_text(extension, "jpg") || text::same_text(extension, "jpeg") {
        "image/jpeg"
    } else if text::same_text(extension, "woff2") {
        "font/woff2"
    } else if text::same_text(extension, "woff") {
        "font/woff"
    } else if text::same_text(extension, "ico") {
        "image/x-icon"
    } else {
        "application/octet-stream"
    }
}

} // verus!
