//! The link to the origin server: one call pulls the library, one pushes changed
//! records. Every request carries the token; where the server refuses it, the
//! token is renewed once and the request is sent again.

use serde_json::Value;
use vstd::prelude::*;
use vstd::utf8::*;

use crate::json;
use crate::json::JsonView;
use crate::text;
use crate::web;

verus! {

pub const DEFAULT_BASE_URL: &'static str = "https://shows.romaine.life";

/// Why a call failed.
#[derive(Debug, Clone)]
pub struct ApiError(pub String);

impl DeepView for ApiError {
    type V = Seq<char>;

    open spec fn deep_view(&self) -> Seq<char> {
        self.0@
    }
}

impl ApiError {
    /// The reason in words.
    pub fn message(&self) -> (r: String)
        ensures
            r@ == self.deep_view(),
    {
        self.0.clone()
    }
}

/// What a transport answers: the status and the text of a response, or why no
/// response came.
pub type Reply = Result<(u16, String), String>;

/// The transport: sends one request.
pub trait HttpSend {
    fn send(&self, method: &str, url: &str, token: &str, body: Option<&Value>) -> Reply;
}

/// Renews the token.
pub trait Refresh {
    fn refresh(&self) -> String;
}

/// A client of the origin server.
pub struct Client<H: HttpSend, R: Refresh> {
    pub base_url: String,
    pub token: String,
    pub refresh: Option<R>,
    pub http: H,
}

/// The base address that an empty one stands for.
pub open spec fn base_or_default(base_url: Seq<char>) -> Seq<char> {
    if base_url.len() == 0 {
        DEFAULT_BASE_URL@
    } else {
        base_url
    }
}

/// What a request ends in, given the reply that counts: an answer with a status
/// of 300 and above is an error that names the request, the status and the text.
pub open spec fn concluded(method: Seq<char>, path: Seq<char>, reply: Reply) -> Result<
    Seq<char>,
    Seq<char>,
> {
    match reply {
        Err(reason) => Err(reason@),
        Ok((status, body)) => if status >= 300 {
            Err(
                method + " "@ + path + ": "@ + text::decimal(status as nat) + " "@ + text::trimmed(
                    body@,
                ),
            )
        } else {
            Ok(body@)
        },
    }
}

pub open spec fn text_result(r: Result<String, ApiError>) -> Result<Seq<char>, Seq<char>> {
    match r {
        Ok(t) => Ok(t@),
        Err(e) => Err(e.0@),
    }
}

/// Whether a reply asks for a new token.
pub open spec fn is_unauthorized(reply: Reply) -> bool {
    reply matches Ok((status, _)) && status == 401
}

/// Turns the reply that counts into the text of the answer, or an error.
pub fn conclude(method: &str, path: &str, reply: Reply) -> (r: Result<String, ApiError>)
    ensures
        text_result(r) == concluded(method@, path@, reply),
{
    match reply {
        Err(reason) => Err(ApiError(reason)),
        Ok((status, body)) => {
            if status >= 300 {
                let mut out = method.to_owned();
                out.append(" ");
                out.append(path);
                out.append(": ");
                let spelled = text::spell(status as u64);
                out.append(spelled.as_str());
                out.append(" ");
                let told = text::trim_text(body.as_str());
                out.append(told.as_str());
                Err(ApiError(out))
            } else {
                Ok(body)
            }
        },
    }
}

/// A reply is one that the transport may give to a request.
pub open spec fn answers<H: HttpSend>(
    http: H,
    method: Seq<char>,
    url: Seq<char>,
    token: Seq<char>,
    body: Option<&Value>,
    reply: Reply,
) -> bool {
    exists|m: &str, u: &str, t: &str|
        m@ == method && u@ == url && t@ == token && #[trigger] call_ensures(
            H::send,
            (&http, m, u, t, body),
            reply,
        )
}

/// A text is one that the renewal of the token may give.
pub open spec fn renews<R: Refresh>(refresh: R, token: Seq<char>) -> bool {
    exists|t: String| t@ == token && #[trigger] call_ensures(R::refresh, (&refresh,), t)
}

/// A request was sent with the client's token, and sent again with a new one
/// where the first reply asked for it and the token can be renewed; the outcome
/// is that of the last reply, and only the token changed.
pub open spec fn requested<H: HttpSend, R: Refresh>(
    before: Client<H, R>,
    after: Client<H, R>,
    method: Seq<char>,
    path: Seq<char>,
    body: Option<&Value>,
    outcome: Result<Seq<char>, Seq<char>>,
) -> bool {
    let url = before.base_url@ + path;
    &&& after.base_url == before.base_url
    &&& after.refresh == before.refresh
    &&& after.http == before.http
    &&& exists|first: Reply|
        #![trigger is_unauthorized(first)]
        answers(before.http, method, url, before.token@, body, first) && if is_unauthorized(first)
            && before.refresh is Some {
            renews(before.refresh->Some_0, after.token@) && exists|second: Reply|
                #![trigger concluded(method, path, second)]
                answers(before.http, method, url, after.token@, body, second) && outcome
                    == concluded(method, path, second)
        } else {
            after.token == before.token && outcome == concluded(method, path, first)
        }
}

/// The path that asks for the library of playlists.
pub open spec fn library_path(playlists: Seq<Seq<char>>) -> Seq<char> {
    "/api/library?playlists="@ + web::percent_encoded(
        encode_utf8(text::joined_with(playlists, ","@)),
    )
}

/// The shows that an answer brings: none where it holds none.
pub open spec fn shows_in(answer: Result<Seq<char>, Seq<char>>) -> Result<
    Option<JsonView>,
    Seq<char>,
> {
    match answer {
        Err(reason) => Err(reason),
        Ok(body) => match json::json_parse(body) {
            Err(reason) => Err(reason),
            Ok(v) => match json::field(v, "shows"@) {
                Some(shows) => if shows is Null {
                    Ok(None)
                } else {
                    Ok(Some(shows))
                },
                None => Ok(None),
            },
        },
    }
}

pub open spec fn shows_result(r: Result<Option<Value>, ApiError>) -> Result<
    Option<JsonView>,
    Seq<char>,
> {
    match r {
        Ok(Some(v)) => Ok(Some(json::json_view(v))),
        Ok(None) => Ok(None),
        Err(e) => Err(e.0@),
    }
}

/// Reads the shows out of what a request for the library ended in.
pub fn library_of(answer: Result<String, ApiError>) -> (r: Result<Option<Value>, ApiError>)
    ensures
        shows_result(r) == shows_in(text_result(answer)),
{
    match answer {
        Err(e) => Err(e),
        Ok(body) => match json::parse(body.as_str()) {
            Err(reason) => Err(ApiError(reason)),
            Ok(v) => match json::get_field(&v, "shows") {
                Some(shows) => if shows.is_null() {
                    Ok(None)
                } else {
                    Ok(Some(shows.clone()))
                },
                None => Ok(None),
            },
        },
    }
}

pub open spec fn sync_record(
    shows: Seq<JsonView>,
    episodes: Seq<JsonView>,
    history: Seq<JsonView>,
) -> JsonView {
    let r = json::empty_record();
    let r = json::with_field(r, "shows"@, JsonView::List(shows));
    let r = json::with_field(r, "episodes"@, JsonView::List(episodes));
    json::with_field(r, "history"@, JsonView::List(history))
}

/// The body that pushes changed records.
pub fn sync_body(shows: Vec<Value>, episodes: Vec<Value>, history: Vec<Value>) -> (r: Value)
    ensures
        json::json_view(r) == sync_record(
            json::views(shows@),
            json::views(episodes@),
            json::views(history@),
        ),
{
    let mut body = json::record();
    json::put(&mut body, "shows", json::list(shows));
    json::put(&mut body, "episodes", json::list(episodes));
    json::put(&mut body, "history", json::list(history));
    body
}

impl<H: HttpSend, R: Refresh> Client<H, R> {
    /// A client with a token and a transport, for a base address.
    pub fn with_http(token: String, base_url: String, refresh: Option<R>, http: H) -> (r: Self)
        ensures
            r.token == token,
            r.base_url == base_url,
            r.refresh == refresh,
            r.http == http,
    {
        Client { base_url, token, refresh, http }
    }

    /// A client with a token, for a base address; for the default one, where it
    /// is empty.
    pub fn new(token: String, base_url: String, refresh: Option<R>, http: H) -> (r: Self)
        ensures
            r.token == token,
            r.base_url@ == base_or_default(base_url@),
            r.refresh == refresh,
            r.http == http,
    {
        let base = if base_url.as_str().is_empty() {
            DEFAULT_BASE_URL.to_owned()
        } else {
            base_url
        };
        Self::with_http(token, base, refresh, http)
    }

    /// The token that the next request carries.
    pub fn token(&self) -> (r: String)
        ensures
            r@ == self.token@,
    {
        self.token.clone()
    }

    /// Sends a request; where the server answers 401 and the token can be
    /// renewed, renews it and sends the request once more. Nothing is promised
    /// of what the transport answers.
    pub fn do_req(&mut self, method: &str, path: &str, body: Option<&Value>) -> (r: Result<
        String,
        ApiError,
    >)
        ensures
            requested(*old(self), *final(self), method@, path@, body, text_result(r)),
    {
        let url = self.base_url.clone().concat(path);
        let first = self.http.send(method, url.as_str(), self.token.as_str(), body);
        let ghost g = first;
        let refused = match &first {
            Ok((status, _)) => *status == 401,
            Err(_) => false,
        };
        assert(refused == is_unauthorized(g));
        assert(answers(self.http, method@, self.base_url@ + path@, self.token@, body, g));
        if refused {
            match &self.refresh {
                Some(renew) => {
                    let renewed = renew.refresh();
                    assert(renews(*renew, renewed@));
                    self.token = renewed;
                    let second = self.http.send(method, url.as_str(), self.token.as_str(), body);
                    let ghost h = second;
                    assert(answers(
                        self.http,
                        method@,
                        self.base_url@ + path@,
                        self.token@,
                        body,
                        h,
                    ));
                    return conclude(method, path, second);
                },
                None => {},
            }
        }
        conclude(method, path, first)
    }

    /// Pulls the library of playlists: the list of its shows as the server sent
    /// it, or nothing where it sent none.
    pub fn get_library(&mut self, playlists: &[String]) -> (r: Result<Option<Value>, ApiError>)
        ensures
            exists|answer: Result<Seq<char>, Seq<char>>|
                shows_result(r) == #[trigger] shows_in(answer) && requested(
                    *old(self),
                    *final(self),
                    "GET"@,
                    library_path(playlists.deep_view()),
                    None,
                    answer,
                ),
    {
        let names = text::join_text(playlists, ",");
        let encoded = web::encode(names.as_str());
        let path = "/api/library?playlists=".to_owned().concat(encoded.as_str());
        let answer = self.do_req("GET", path.as_str(), None);
        let ghost a = text_result(answer);
        let r = library_of(answer);
        assert(shows_result(r) == shows_in(a));
        r
    }

    /// Pushes changed records.
    pub fn post_sync(
        &mut self,
        shows: Vec<Value>,
        episodes: Vec<Value>,
        history: Vec<Value>,
    ) -> (r: Result<(), ApiError>)
        ensures
            exists|body: Value, answer: Result<Seq<char>, Seq<char>>|
                json::json_view(body) == sync_record(
                    json::views(shows@),
                    json::views(episodes@),
                    json::views(history@),
                ) && #[trigger] requested(
                    *old(self),
                    *final(self),
                    "POST"@,
                    "/api/sync"@,
                    Some(&body),
                    answer,
                ) && match (r, answer) {
                    (Ok(_), Ok(_)) => true,
                    (Err(e), Err(reason)) => e.0@ == reason,
                    _ => false,
                },
    {
        let body = sync_body(shows, episodes, history);
        match self.do_req("POST", "/api/sync", Some(&body)) {
            Ok(_) => Ok(()),
            Err(e) => Err(e),
        }
    }
}

} // verus!
