//! Signing in: the login address with its proof key, the callback that brings
//! the one-time code, its exchange for a token, and the token cache.

use base64::engine::general_purpose::URL_SAFE_NO_PAD;
use base64::Engine;
use serde_json::Value;
use vstd::prelude::*;
use vstd::utf8::*;

use crate::clock;
use crate::json;
use crate::json::JsonView;
use crate::ordering;
use crate::text;
use crate::web;

verus! {

pub const DEFAULT_AUTH_BASE_URL: &'static str = "https://auth.romaine.life";

pub const LOGIN_ENDPOINT: &'static str = "/api/auth/cli/user-login";

pub const TOKEN_ENDPOINT: &'static str = "/api/auth/cli/user-token";

/// Only a cached token with this version is used.
pub const CACHE_VERSION: i64 = 1;

pub const SIGNED_IN_HTML: &'static str = "<!doctype html><body style='background:#0a0a0a;color:#eee;font-family:monospace;padding:32px'><h2>shows: signed in</h2><p>You can close this tab.</p></body>";

// ── tokens ──────────────────────────────────────────────────────────────

/// A user's token, with the time at which it expires in seconds since 1970.
#[derive(Debug, Clone)]
pub struct Token {
    pub token: String,
    pub expires_at: i64,
    pub version: i64,
}

#[verifier::ext_equal]
pub struct TokenView {
    pub token: Seq<char>,
    pub expires_at: i64,
    pub version: i64,
}

impl DeepView for Token {
    type V = TokenView;

    open spec fn deep_view(&self) -> TokenView {
        TokenView { token: self.token@, expires_at: self.expires_at, version: self.version }
    }
}

/// The seconds since 1970. A clock before that counts as 1970.
fn seconds_now() -> (r: i64)
    ensures
        r >= 0,
{
    match clock::unix_seconds() {
        Some(n) => if n <= i64::MAX as u64 {
            n as i64
        } else {
            i64::MAX
        },
        None => 0,
    }
}

/// An empty token is expired; any other a minute before its time.
pub open spec fn is_expired(t: TokenView, now: int) -> bool {
    t.token.len() == 0 || now + 60 >= t.expires_at
}

impl Token {
    /// Whether the token is expired at a time.
    pub fn expired_at(&self, now: i64) -> (r: bool)
        ensures
            r == is_expired(self.deep_view(), now as int),
    {
        self.token.as_str().is_empty() || now as i128 + 60 >= self.expires_at as i128
    }

    /// Whether the token is expired now. A clock before 1970 counts as 1970.
    pub fn expired(&self) -> (r: bool)
        ensures
            exists|now: int| now >= 0 && r == #[trigger] is_expired(self.deep_view(), now),
    {
        if self.token.as_str().is_empty() {
            assert(is_expired(self.deep_view(), 0));
            return true;
        }
        self.expired_at(seconds_now())
    }
}

pub open spec fn token_record(t: TokenView) -> JsonView {
    let r = json::empty_record();
    let r = json::with_field(r, "version"@, JsonView::Int(t.version as int));
    let r = json::with_field(r, "token"@, JsonView::Text(t.token));
    json::with_field(r, "expires_at"@, JsonView::Int(t.expires_at as int))
}

/// The token of a cache entry: none where the entry is of another version. What
/// is missing counts as empty.
pub open spec fn token_in(v: JsonView) -> Option<TokenView> {
    if json::int_field(v, "version"@) != Some(CACHE_VERSION) {
        None
    } else {
        Some(
            TokenView {
                token: match json::text_field(v, "token"@) {
                    Some(t) => t,
                    None => Seq::empty(),
                },
                expires_at: match json::int_field(v, "expires_at"@) {
                    Some(n) => n,
                    None => 0,
                },
                version: CACHE_VERSION,
            },
        )
    }
}

/// The token in the text of the cache: none where there is no text, or it is no
/// entry of this version.
pub open spec fn cached_token(text: Option<Seq<char>>) -> Option<TokenView> {
    match text {
        Some(t) => match json::json_parse(t) {
            Ok(v) => token_in(v),
            Err(_) => None,
        },
        None => None,
    }
}

/// What is stored of a token of this version is the token that is read, expired
/// or not. A token of another version is not read, nor is one where there is no
/// cache or none that can be parsed.
pub proof fn law_token_reads_back(t: TokenView, cache: Seq<char>)
    ensures
        json::is_flat(token_record(t)),
        json::spells(cache, token_record(t)) ==> cached_token(Some(cache)) == if t.version
            == CACHE_VERSION {
            Some(t)
        } else {
            None
        },
        cached_token(None) is None,
        json::json_parse(cache) is Err ==> cached_token(Some(cache)) is None,
{
    lemma_token_record(t);
}

proof fn lemma_token_record(t: TokenView)
    ensures
        json::is_flat(token_record(t)),
        token_in(token_record(t)) == if t.version == CACHE_VERSION {
            Some(t)
        } else {
            None
        },
{
    reveal_strlit("version");
    reveal_strlit("token");
    reveal_strlit("expires_at");
    assert("version"@.len() == 7 && "token"@.len() == 5 && "expires_at"@.len() == 10);
}

/// Reads the token out of a parsed cache entry.
pub fn token_of_entry(entry: &Value) -> (r: Option<Token>)
    ensures
        r.deep_view() == token_in(json::json_view(*entry)),
{
    let current = match json::get_int(entry, "version") {
        Some(v) => v == CACHE_VERSION,
        None => false,
    };
    if !current {
        return None;
    }
    Some(
        Token {
            token: match json::get_text(entry, "token") {
                Some(t) => t.to_owned(),
                None => String::new(),
            },
            expires_at: match json::get_int(entry, "expires_at") {
                Some(n) => n,
                None => 0,
            },
            version: CACHE_VERSION,
        },
    )
}

/// Reads the token out of the text of the cache file, where there is one.
pub fn load_cached_token(cache: Option<&str>) -> (r: Option<Token>)
    ensures
        r.deep_view() == cached_token(cache.deep_view()),
{
    match cache {
        Some(t) => match json::parse(t) {
            Ok(entry) => token_of_entry(&entry),
            Err(_) => None,
        },
        None => None,
    }
}

/// The text of the cache file for a token. Reading it gives the token back, unless
/// the token is of another version.
pub fn save_token(tok: &Token) -> (r: String)
    ensures
        r@ == json::json_indented(token_record(tok.deep_view())),
        cached_token(Some(r@)) == if tok.version == CACHE_VERSION {
            Some(tok.deep_view())
        } else {
            None
        },
{
    let mut entry = json::record();
    json::put(&mut entry, "version", json::integer(tok.version));
    json::put(&mut entry, "token", json::text(tok.token.as_str()));
    json::put(&mut entry, "expires_at", json::integer(tok.expires_at));
    proof {
        lemma_token_record(tok.deep_view());
    }
    json::print_indented(&entry)
}

/// The cached token where it is good at a time; otherwise none, and the user has
/// to sign in.
pub open spec fn usable(cached: Option<TokenView>, now: int) -> Option<TokenView> {
    match cached {
        Some(t) => if is_expired(t, now) {
            None
        } else {
            Some(t)
        },
        None => None,
    }
}

/// The cached token where it is good at a time.
pub fn usable_token(cached: Option<Token>, now: i64) -> (r: Option<Token>)
    ensures
        r.deep_view() == usable(cached.deep_view(), now as int),
{
    match cached {
        Some(t) => if t.expired_at(now) {
            None
        } else {
            Some(t)
        },
        None => None,
    }
}

/// The cached token where it is good now.
pub fn ensure_token(cached: Option<Token>) -> (r: Option<Token>)
    ensures
        exists|now: int| now >= 0 && r.deep_view() == #[trigger] usable(cached.deep_view(), now),
{
    usable_token(cached, seconds_now())
}

// ── the proof key ───────────────────────────────────────────────────────

/// The base64 of bytes in the alphabet for addresses, without padding.
pub uninterp spec fn base64_url(raw: Seq<u8>) -> Seq<char>;

/// How long that is.
pub open spec fn base64_len(n: nat) -> nat {
    n / 3 * 4 + if n % 3 == 0 {
        0nat
    } else {
        n % 3 + 1
    }
}

/// `base64`'s engine `URL_SAFE_NO_PAD`: a function of the bytes, four characters
/// for every three bytes and as many as needed for the rest.
#[verifier::external_body]
fn encode_base64(raw: &[u8]) -> (r: String)
    ensures
        r@ == base64_url(raw@),
        r@.len() == base64_len(raw@.len()),
{
    URL_SAFE_NO_PAD.encode(raw)
}

/// Spells bytes for an address.
pub fn b64url(raw: &[u8]) -> (r: String)
    ensures
        r@ == base64_url(raw@),
        r@.len() == base64_len(raw@.len()),
{
    encode_base64(raw)
}

/// A random string for an address, of so many random bytes.
pub fn rand_b64url(n_bytes: usize) -> (r: String)
    requires
        n_bytes <= usize::MAX - 16,
    ensures
        exists|raw: Seq<u8>| raw.len() == n_bytes && r@ == #[trigger] base64_url(raw),
        r@.len() == base64_len(n_bytes as nat),
{
    let mut buf: Vec<u8> = Vec::new();
    while buf.len() < n_bytes
        invariant
            n_bytes <= usize::MAX - 16,
            buf@.len() <= n_bytes + 16,
        decreases n_bytes + 16 - buf.len(),
    {
        let mut more = clock::random_bytes();
        buf.append(&mut more);
    }
    buf.truncate(n_bytes);
    b64url(buf.as_slice())
}

/// The challenge of a verifier: the hash of its spelling.
pub open spec fn challenge_of(verifier: Seq<char>) -> Seq<char> {
    base64_url(ordering::sha256(encode_utf8(verifier)))
}

/// The challenge that goes with a verifier.
pub fn pkce_challenge(verifier: &str) -> (r: String)
    ensures
        r@ == challenge_of(verifier@),
{
    let digest = ordering::sha256_digest(verifier.as_bytes());
    b64url(digest.as_slice())
}

/// A random verifier, and its challenge.
pub fn pkce_pair() -> (r: (String, String))
    ensures
        exists|raw: Seq<u8>| raw.len() == 32 && r.0@ == #[trigger] base64_url(raw),
        r.0@.len() == 43,
        r.1@ == challenge_of(r.0@),
{
    let verifier = rand_b64url(32);
    let challenge = pkce_challenge(verifier.as_str());
    (verifier, challenge)
}

// ── the login address ───────────────────────────────────────────────────

pub open spec fn encoded(s: Seq<char>) -> Seq<char> {
    web::percent_encoded(encode_utf8(s))
}

pub open spec fn login_url(
    base_url: Seq<char>,
    redirect_uri: Seq<char>,
    challenge: Seq<char>,
    state: Seq<char>,
) -> Seq<char> {
    base_url + LOGIN_ENDPOINT@ + "?redirect_uri="@ + encoded(redirect_uri) + "&code_challenge="@
        + encoded(challenge) + "&code_challenge_method=S256&state="@ + encoded(state)
}

/// The address at which the user signs in.
pub fn build_login_url(base_url: &str, redirect_uri: &str, challenge: &str, state: &str) -> (r:
    String)
    ensures
        r@ == login_url(base_url@, redirect_uri@, challenge@, state@),
{
    let redirect = web::encode(redirect_uri);
    let challenge = web::encode(challenge);
    let state = web::encode(state);
    let mut out = base_url.to_owned();
    out.append(LOGIN_ENDPOINT);
    out.append("?redirect_uri=");
    out.append(redirect.as_str());
    out.append("&code_challenge=");
    out.append(challenge.as_str());
    out.append("&code_challenge_method=S256&state=");
    out.append(state.as_str());
    out
}

pub open spec fn redirect_to(port: u16) -> Seq<char> {
    "http://127.0.0.1:"@ + text::decimal(port as nat) + "/callback"@
}

/// The address to which the browser is sent back.
pub fn redirect_uri(port: u16) -> (r: String)
    ensures
        r@ == redirect_to(port),
{
    let mut out = "http://127.0.0.1:".to_owned();
    let spelled = text::spell(port as u64);
    out.append(spelled.as_str());
    out.append("/callback");
    out
}

/// An attempt to sign in: what was sent out, and what the exchange needs.
#[derive(Debug, Clone)]
pub struct LoginAttempt {
    pub verifier: String,
    pub state: String,
    pub redirect_uri: String,
    pub login_url: String,
}

/// Starts an attempt to sign in, with a listener on a port of this machine.
pub fn authenticate(auth_base_url: &str, port: u16) -> (r: LoginAttempt)
    ensures
        exists|raw: Seq<u8>| raw.len() == 32 && r.verifier@ == #[trigger] base64_url(raw),
        r.verifier@.len() == 43,
        exists|raw: Seq<u8>| raw.len() == 24 && r.state@ == #[trigger] base64_url(raw),
        r.state@.len() == 32,
        r.redirect_uri@ == redirect_to(port),
        r.login_url@ == login_url(
            auth_base_url@,
            r.redirect_uri@,
            challenge_of(r.verifier@),
            r.state@,
        ),
{
    let (verifier, challenge) = pkce_pair();
    let state = rand_b64url(24);
    let redirect = redirect_uri(port);
    let login_url = build_login_url(
        auth_base_url,
        redirect.as_str(),
        challenge.as_str(),
        state.as_str(),
    );
    LoginAttempt { verifier, state, redirect_uri: redirect, login_url }
}

// ── the callback ────────────────────────────────────────────────────────

/// A value as a query spells it, decoded; as it is, where it decodes to no text.
pub open spec fn query_value(v: Seq<char>) -> Seq<char> {
    let bytes = web::percent_decoded(encode_utf8(v));
    if valid_utf8(bytes) {
        decode_utf8(bytes)
    } else {
        v
    }
}

/// The keys and values of a query's parts; a part without a `=` is passed over.
pub open spec fn query_pairs(parts: Seq<Seq<char>>) -> Seq<(Seq<char>, Seq<char>)>
    decreases parts.len(),
{
    if parts.len() == 0 {
        Seq::empty()
    } else {
        let before = query_pairs(parts.drop_last());
        match text::cut(parts.last(), '=') {
            Some((k, v)) => before.push((k, query_value(v))),
            None => before,
        }
    }
}

/// The value of the last pair that has the key.
pub open spec fn last_value(pairs: Seq<(Seq<char>, Seq<char>)>, key: Seq<char>) -> Option<
    Seq<char>,
>
    decreases pairs.len(),
{
    if pairs.len() == 0 {
        None
    } else if pairs.last().0 == key {
        Some(pairs.last().1)
    } else {
        last_value(pairs.drop_last(), key)
    }
}

/// The keys and values of a query.
#[derive(Debug, Clone)]
pub struct QueryParams {
    pub pairs: Vec<(String, String)>,
}

impl QueryParams {
    /// The value of a key; of several, the last.
    pub fn get(&self, key: &str) -> (r: Option<&String>)
        ensures
            r.deep_view() == last_value(self.pairs.deep_view(), key@),
    {
        let ghost pv = self.pairs.deep_view();
        let mut i: usize = self.pairs.len();
        assert(pv.take(i as int) =~= pv);
        while i > 0
            invariant
                i <= self.pairs@.len(),
                pv == self.pairs.deep_view(),
                last_value(pv, key@) == last_value(pv.take(i as int), key@),
            decreases i,
        {
            proof {
                assert(pv[i - 1] == self.pairs@[i - 1].deep_view());
                assert(pv.take(i as int).drop_last() =~= pv.take(i - 1));
                assert(pv.take(i as int).last() == pv[i - 1]);
            }
            if text::same_text(self.pairs[i - 1].0.as_str(), key) {
                return Some(&self.pairs[i - 1].1);
            }
            i = i - 1;
        }
        None
    }
}

/// Reads the keys and values of a query.
pub fn parse_query(query: &str) -> (r: QueryParams)
    ensures
        r.pairs.deep_view() == query_pairs(text::split(query@, '&')),
{
    let parts = text::split_text(query, '&');
    let ghost pv = parts.deep_view();
    let mut pairs: Vec<(String, String)> = Vec::new();
    let mut i: usize = 0;
    assert(pairs.deep_view() =~= query_pairs(pv.take(0)));
    while i < parts.len()
        invariant
            i <= parts@.len(),
            pv == parts.deep_view(),
            pairs.deep_view() == query_pairs(pv.take(i as int)),
        decreases parts.len() - i,
    {
        proof {
            assert(pv[i as int] == parts@[i as int]@);
            assert(pv.take(i + 1).drop_last() =~= pv.take(i as int));
            assert(pv.take(i + 1).last() == pv[i as int]);
        }
        match text::cut_text(parts[i].as_str(), '=') {
            Some((k, v)) => {
                let value = match web::decode(v.as_str()) {
                    Some(t) => t,
                    None => v,
                };
                let ghost before = pairs.deep_view();
                pairs.push((k, value));
                assert(pairs.deep_view() =~= before.push((k@, value@)));
            },
            None => {},
        }
        i = i + 1;
    }
    assert(pv.take(i as int) =~= pv);
    QueryParams { pairs }
}

/// What the sign-in listener does after a request.
#[derive(Debug, Clone)]
pub enum CallbackOutcome {
    /// The request was not the callback: listen on.
    KeepListening,
    /// The callback is no good: give up, for this reason.
    Failed(String),
    /// The callback brought the one-time code.
    Code(String),
}

#[verifier::ext_equal]
pub enum CallbackOutcomeView {
    KeepListening,
    Failed(Seq<char>),
    Code(Seq<char>),
}

impl DeepView for CallbackOutcome {
    type V = CallbackOutcomeView;

    open spec fn deep_view(&self) -> CallbackOutcomeView {
        match self {
            CallbackOutcome::KeepListening => CallbackOutcomeView::KeepListening,
            CallbackOutcome::Failed(s) => CallbackOutcomeView::Failed(s@),
            CallbackOutcome::Code(s) => CallbackOutcomeView::Code(s@),
        }
    }
}

/// The path and query that a request line asks for.
pub open spec fn request_target(line: Seq<char>) -> (Seq<char>, Seq<char>) {
    let w = text::words(line);
    let target = if w.len() > 1 {
        w[1]
    } else {
        Seq::empty()
    };
    match text::cut(target, '?') {
        Some((path, query)) => (path, query),
        None => (target, Seq::empty()),
    }
}

/// What a request means to the listener: only the callback counts, its state
/// must be the one that was sent out, and it must bring a code.
pub open spec fn callback_outcome(line: Seq<char>, state: Seq<char>) -> CallbackOutcomeView {
    let (path, query) = request_target(line);
    let pairs = query_pairs(text::split(query, '&'));
    if path != "/callback"@ {
        CallbackOutcomeView::KeepListening
    } else if last_value(pairs, "state"@) != Some(state) {
        CallbackOutcomeView::Failed("oauth: state mismatch on callback"@)
    } else {
        match last_value(pairs, "code"@) {
            Some(code) => if code.len() > 0 {
                CallbackOutcomeView::Code(code)
            } else {
                CallbackOutcomeView::Failed("oauth: callback missing code"@)
            },
            None => CallbackOutcomeView::Failed("oauth: callback missing code"@),
        }
    }
}

/// A whole response over a connection that is closed behind it.
pub open spec fn http_response(
    status: Seq<char>,
    content_type: Seq<char>,
    body: Seq<char>,
) -> Seq<char> {
    "HTTP/1.1 "@ + status + "\r\nContent-Type: "@ + content_type + "\r\nContent-Length: "@
        + text::decimal(encode_utf8(body).len()) + "\r\nConnection: close\r\n\r\n"@ + body
}

/// What the browser is told.
pub open spec fn callback_reply(line: Seq<char>, state: Seq<char>) -> Seq<char> {
    let (path, query) = request_target(line);
    let pairs = query_pairs(text::split(query, '&'));
    if path != "/callback"@ {
        http_response("404 Not Found"@, "text/plain"@, "not found"@)
    } else if last_value(pairs, "state"@) != Some(state) {
        http_response("400 Bad Request"@, "text/plain"@, "state mismatch"@)
    } else if callback_outcome(line, state) is Code {
        http_response("200 OK"@, "text/html; charset=utf-8"@, SIGNED_IN_HTML@)
    } else {
        http_response("400 Bad Request"@, "text/plain"@, "missing code"@)
    }
}

/// Spells a response.
pub fn write_response(status: &str, content_type: &str, body: &str) -> (r: String)
    ensures
        r@ == http_response(status@, content_type@, body@),
{
    let mut out = "HTTP/1.1 ".to_owned();
    out.append(status);
    out.append("\r\nContent-Type: ");
    out.append(content_type);
    out.append("\r\nContent-Length: ");
    let size: usize = body.as_bytes().len();
    let length = text::spell(size as u64);
    out.append(length.as_str());
    out.append("\r\nConnection: close\r\n\r\n");
    out.append(body);
    out
}

/// Decides what a request to the sign-in listener means, and what to answer.
/// `line` is the first line of the request.
pub fn accept_code(line: &str, state: &str) -> (r: (String, CallbackOutcome))
    ensures
        r.0@ == callback_reply(line@, state@),
        r.1.deep_view() == callback_outcome(line@, state@),
{
    let words = text::words_of(line);
    let target = if words.len() > 1 {
        assert(words.deep_view()[1] == words@[1]@);
        words[1].clone()
    } else {
        String::new()
    };
    let (path, query) = match text::cut_text(target.as_str(), '?') {
        Some(p) => p,
        None => (target, String::new()),
    };
    if !text::same_text(path.as_str(), "/callback") {
        return (
            write_response("404 Not Found", "text/plain", "not found"),
            CallbackOutcome::KeepListening,
        );
    }
    let params = parse_query(query.as_str());
    let matching = match params.get("state") {
        Some(s) => text::same_text(s.as_str(), state),
        None => false,
    };
    if !matching {
        return (
            write_response("400 Bad Request", "text/plain", "state mismatch"),
            CallbackOutcome::Failed("oauth: state mismatch on callback".to_owned()),
        );
    }
    match params.get("code") {
        Some(code) => {
            if !code.as_str().is_empty() {
                return (
                    write_response("200 OK", "text/html; charset=utf-8", SIGNED_IN_HTML),
                    CallbackOutcome::Code(code.clone()),
                );
            }
        },
        None => {},
    }
    (
        write_response("400 Bad Request", "text/plain", "missing code"),
        CallbackOutcome::Failed("oauth: callback missing code".to_owned()),
    )
}

/// A callback yields a code only where its state is the one that was sent out.
pub proof fn law_code_needs_the_state(line: Seq<char>, state: Seq<char>)
    requires
        callback_outcome(line, state) is Code,
    ensures
        request_target(line).0 == "/callback"@,
        last_value(query_pairs(text::split(request_target(line).1, '&')), "state"@) == Some(state),
        callback_outcome(line, state)->Code_0.len() > 0,
{
}

// ── the exchange ────────────────────────────────────────────────────────

pub open spec fn exchange_record(
    code: Seq<char>,
    verifier: Seq<char>,
    redirect_uri: Seq<char>,
) -> JsonView {
    let r = json::empty_record();
    let r = json::with_field(r, "grant_type"@, JsonView::Text("authorization_code"@));
    let r = json::with_field(r, "code"@, JsonView::Text(code));
    let r = json::with_field(r, "code_verifier"@, JsonView::Text(verifier));
    json::with_field(r, "redirect_uri"@, JsonView::Text(redirect_uri))
}

/// The body of the request that exchanges a code for a token.
pub fn exchange_body(code: &str, verifier: &str, redirect_uri: &str) -> (r: String)
    ensures
        r@ == json::json_compact(exchange_record(code@, verifier@, redirect_uri@)),
{
    let mut body = json::record();
    json::put(&mut body, "grant_type", json::text("authorization_code"));
    json::put(&mut body, "code", json::text(code));
    json::put(&mut body, "code_verifier", json::text(verifier));
    json::put(&mut body, "redirect_uri", json::text(redirect_uri));
    json::print_compact(&body)
}

/// The address at which a code is exchanged.
pub fn token_url(auth_base_url: &str) -> (r: String)
    ensures
        r@ == auth_base_url@ + TOKEN_ENDPOINT@,
{
    let mut out = auth_base_url.to_owned();
    out.append(TOKEN_ENDPOINT);
    out
}

/// What came of the request.
#[derive(Debug, Clone)]
pub enum ExchangeReply {
    /// The server answered with an error status.
    Refused(u16),
    /// The request failed, for this reason.
    Failed(String),
    /// The answer could not be read, for this reason.
    Unreadable(String),
    /// The text of the answer.
    Answered(String),
}

pub open spec fn prefixed(reason: Seq<char>) -> Seq<char> {
    "oauth: "@ + reason
}

/// The token that an answer brings, or why it brings none.
pub open spec fn token_or_reason(answer: JsonView) -> Result<TokenView, Seq<char>> {
    match json::text_field(answer, "token"@) {
        Some(t) => if t.len() > 0 {
            Ok(
                TokenView {
                    token: t,
                    expires_at: match json::int_field(answer, "expires_at"@) {
                        Some(n) => n,
                        None => 0,
                    },
                    version: CACHE_VERSION,
                },
            )
        } else {
            Err(refusal(answer))
        },
        None => Err(refusal(answer)),
    }
}

pub open spec fn refusal(answer: JsonView) -> Seq<char> {
    let e = match json::text_field(answer, "error"@) {
        Some(e) => e,
        None => "token exchange failed"@,
    };
    match json::text_field(answer, "error_description"@) {
        Some(d) => prefixed(e) + ": "@ + d,
        None => prefixed(e),
    }
}

pub open spec fn exchanged(reply: ExchangeReply) -> Result<TokenView, Seq<char>> {
    match reply {
        ExchangeReply::Refused(code) => Err(
            prefixed("token exchange returned "@ + text::decimal(code as nat)),
        ),
        ExchangeReply::Failed(reason) => Err(prefixed(reason@)),
        ExchangeReply::Unreadable(reason) => Err(reason@),
        ExchangeReply::Answered(body) => match json::json_parse(body@) {
            Ok(answer) => token_or_reason(answer),
            Err(reason) => Err(reason),
        },
    }
}

pub open spec fn token_result(r: Result<Token, String>) -> Result<TokenView, Seq<char>> {
    match r {
        Ok(t) => Ok(t.deep_view()),
        Err(e) => Err(e@),
    }
}

fn with_prefix(reason: &str) -> (r: String)
    ensures
        r@ == prefixed(reason@),
{
    let mut out = "oauth: ".to_owned();
    out.append(reason);
    out
}

/// Reads the token out of a parsed answer.
pub fn token_of_answer(answer: &Value) -> (r: Result<Token, String>)
    ensures
        token_result(r) == token_or_reason(json::json_view(*answer)),
{
    match json::get_text(answer, "token") {
        Some(t) => {
            if !t.is_empty() {
                return Ok(
                    Token {
                        token: t.to_owned(),
                        expires_at: match json::get_int(answer, "expires_at") {
                            Some(n) => n,
                            None => 0,
                        },
                        version: CACHE_VERSION,
                    },
                );
            }
        },
        None => {},
    }
    let mut out = match json::get_text(answer, "error") {
        Some(e) => with_prefix(e),
        None => with_prefix("token exchange failed"),
    };
    match json::get_text(answer, "error_description") {
        Some(d) => {
            out.append(": ");
            out.append(d);
        },
        None => {},
    }
    Err(out)
}

/// The token that the exchange brought, or why it brought none.
pub fn exchange_code(reply: ExchangeReply) -> (r: Result<Token, String>)
    ensures
        token_result(r) == exchanged(reply),
{
    match reply {
        ExchangeReply::Refused(code) => {
            let mut reason = "token exchange returned ".to_owned();
            let spelled = text::spell(code as u64);
            reason.append(spelled.as_str());
            Err(with_prefix(reason.as_str()))
        },
        ExchangeReply::Failed(reason) => Err(with_prefix(reason.as_str())),
        ExchangeReply::Unreadable(reason) => Err(reason),
        ExchangeReply::Answered(body) => match json::parse(body.as_str()) {
            Ok(answer) => token_of_answer(&answer),
            Err(reason) => Err(reason),
        },
    }
}

/// The directory under which the cache is kept: the application data of the
/// user, or the configuration under the user's home, or here.
pub fn cache_base(appdata: Option<String>, home: Option<String>) -> (r: String)
    ensures
        r@ == match appdata.deep_view() {
            Some(a) => a,
            None => match home.deep_view() {
                Some(h) => h + "/.config"@,
                None => "."@,
            },
        },
{
    match appdata {
        Some(a) => a,
        None => match home {
            Some(h) => h.concat("/.config"),
            None => ".".to_owned(),
        },
    }
}

} // verus!
