//! The client of the origin server, over a transport that a test plays.

use std::cell::{Cell, RefCell};
use std::rc::Rc;

use serde_json::Value;
use shows::apiclient::{conclude, library_of, sync_body, ApiError, Client, HttpSend, Refresh, Reply, DEFAULT_BASE_URL};

fn value(text: &str) -> Value {
    serde_json::from_str(text).unwrap()
}

struct FnHttp<F>(F);

impl<F> HttpSend for FnHttp<F>
where
    F: Fn(&str, &str, &str, Option<&Value>) -> (u16, String),
{
    fn send(&self, method: &str, url: &str, token: &str, body: Option<&Value>) -> Reply {
        Ok((self.0)(method, url, token, body))
    }
}

struct Down;

impl HttpSend for Down {
    fn send(&self, _method: &str, _url: &str, _token: &str, _body: Option<&Value>) -> Reply {
        Err("connection refused".to_string())
    }
}

struct NewToken(&'static str);

impl Refresh for NewToken {
    fn refresh(&self) -> String {
        self.0.to_string()
    }
}

fn client<F>(handler: F, refresh: Option<NewToken>) -> Client<FnHttp<F>, NewToken>
where
    F: Fn(&str, &str, &str, Option<&Value>) -> (u16, String),
{
    Client::with_http("tok".to_string(), "https://example.test".to_string(), refresh, FnHttp(handler))
}

fn playlists(names: &[&str]) -> Vec<String> {
    names.iter().map(|n| n.to_string()).collect()
}

#[test]
fn get_library_query_and_parse() {
    let mut c = client(
        |method, url, token, _body| {
            assert_eq!(method, "GET");
            assert!(url.starts_with("https://example.test/api/library?playlists="));
            assert!(url.contains("nelson%2Ccouple")); // comma percent-encoded
            assert_eq!(token, "tok");
            (
                200,
                r#"{"shows": [
                    {"id":"s1","playlist":"nelson","name":"S1","root_path":"D:\\A","updated_at":"t"},
                    {"id":"s2","playlist":"nelson","name":"S2","root_path":"D:\\B","updated_at":"t"}
                ]}"#
                    .to_string(),
            )
        },
        None,
    );
    let out = c.get_library(&playlists(&["nelson", "couple"])).unwrap().unwrap();
    let ids: Vec<&str> = out.as_array().unwrap().iter().map(|s| s["id"].as_str().unwrap()).collect();
    assert_eq!(ids, ["s1", "s2"]);
}

#[test]
fn get_library_missing_key_is_empty() {
    let mut c = client(|_, _, _, _| (200, "{}".to_string()), None);
    assert!(c.get_library(&playlists(&["nelson"])).unwrap().is_none());
}

#[test]
fn post_sync_body_shape() {
    let seen: Rc<RefCell<Option<Value>>> = Rc::new(RefCell::new(None));
    let seen2 = seen.clone();
    let mut c = client(
        move |method, url, _token, body| {
            assert_eq!(method, "POST");
            assert!(url.ends_with("/api/sync"));
            *seen2.borrow_mut() = body.cloned();
            (204, String::new())
        },
        None,
    );
    c.post_sync(
        vec![value(r#"{"id":"s1"}"#)],
        vec![value(r#"{"id":"e1"}"#)],
        vec![value(r#"{"id":"h1"}"#)],
    )
    .unwrap();
    assert_eq!(
        seen.borrow().clone().unwrap(),
        value(r#"{"shows":[{"id":"s1"}],"episodes":[{"id":"e1"}],"history":[{"id":"h1"}]}"#)
    );
}

#[test]
fn refreshes_token_once_and_retries_on_401() {
    let calls = Rc::new(Cell::new(0usize));
    let calls2 = calls.clone();
    let mut c = client(
        move |_method, _url, token, _body| {
            let n = calls2.get();
            calls2.set(n + 1);
            if n == 0 {
                assert_eq!(token, "tok");
                (401, r#"{"error":"expired"}"#.to_string())
            } else {
                assert_eq!(token, "tok2"); // refreshed
                (200, r#"{"shows": []}"#.to_string())
            }
        },
        Some(NewToken("tok2")),
    );
    c.get_library(&playlists(&["nelson"])).unwrap();
    assert_eq!(calls.get(), 2);
    assert_eq!(c.token(), "tok2");
}

#[test]
fn persistent_error_raises_apierror() {
    let mut c = client(|_, _, _, _| (500, "boom".to_string()), None);
    let err = c.get_library(&playlists(&["nelson"])).unwrap_err();
    assert!(err.message().contains("500"));
    assert_eq!(err.message(), "GET /api/library?playlists=nelson: 500 boom");
}

#[test]
fn a_second_refusal_is_an_error_without_a_third_request() {
    let calls = Rc::new(Cell::new(0usize));
    let calls2 = calls.clone();
    let mut c = client(
        move |_, _, _, _| {
            calls2.set(calls2.get() + 1);
            (401, " denied \n".to_string())
        },
        Some(NewToken("tok2")),
    );
    let err = c.do_req("GET", "/x", None).unwrap_err();
    assert_eq!(err.message(), "GET /x: 401 denied");
    assert_eq!(calls.get(), 2);
}

#[test]
fn a_refusal_without_a_way_to_renew_is_an_error_at_once() {
    let calls = Rc::new(Cell::new(0usize));
    let calls2 = calls.clone();
    let mut c = client(
        move |_, _, _, _| {
            calls2.set(calls2.get() + 1);
            (401, String::new())
        },
        None,
    );
    assert_eq!(c.do_req("GET", "/x", None).unwrap_err().message(), "GET /x: 401 ");
    assert_eq!(calls.get(), 1);
    assert_eq!(c.token(), "tok");
}

#[test]
fn a_transport_that_fails_gives_its_reason() {
    let mut c: Client<Down, NewToken> = Client::new("t".to_string(), String::new(), None, Down);
    assert_eq!(c.base_url, DEFAULT_BASE_URL);
    assert_eq!(c.do_req("GET", "/x", None).unwrap_err().message(), "connection refused");
}

#[test]
fn statuses_below_300_are_answers() {
    assert_eq!(conclude("GET", "/x", Ok((299, "fine".to_string()))).unwrap(), "fine");
    assert_eq!(conclude("GET", "/x", Ok((300, "no".to_string()))).unwrap_err().message(), "GET /x: 300 no");
}

#[test]
fn an_answer_that_is_no_json_is_an_error() {
    assert!(library_of(Ok("not json".to_string())).is_err());
    assert!(library_of(Ok(r#"{"shows":null}"#.to_string())).unwrap().is_none());
    assert!(library_of(Ok(r#"{"shows":[]}"#.to_string())).unwrap().is_some());
    assert_eq!(library_of(Err(ApiError("why".to_string()))).unwrap_err().message(), "why");
}

#[test]
fn a_body_of_nothing_has_its_three_lists() {
    assert_eq!(sync_body(vec![], vec![], vec![]), value(r#"{"shows":[],"episodes":[],"history":[]}"#));
}
