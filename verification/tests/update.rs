//! Whether a newer build was released.

use shows::update::{check, compare, current_sha, latest_release, UpdateInfo};

#[test]
fn update_available() {
    assert_eq!(
        compare("old1234", "desktop-new5678", "https://gh/rel"),
        Some(UpdateInfo {
            latest: "new5678".to_string(),
            current: "old1234".to_string(),
            url: "https://gh/rel".to_string(),
        })
    );
}

#[test]
fn up_to_date_is_none() {
    assert_eq!(compare("same999", "desktop-same999", ""), None);
}

#[test]
fn empty_latest_is_none() {
    // a tag that's only the prefix (or empty) yields no comparable version
    assert_eq!(compare("x", "desktop-", "u"), None);
    assert_eq!(compare("x", "", "u"), None);
}

#[test]
fn unprefixed_tag_compared_whole() {
    assert_eq!(
        compare("x", "v2", "u"),
        Some(UpdateInfo {
            latest: "v2".to_string(),
            current: "x".to_string(),
            url: "u".to_string(),
        })
    );
}

#[test]
fn a_release_is_read_out_of_the_answer() {
    assert_eq!(
        latest_release(r#"{"tag_name":"desktop-abc","html_url":"https://gh/rel"}"#),
        Some(("desktop-abc".to_string(), "https://gh/rel".to_string()))
    );
    assert_eq!(latest_release("no json"), None);
}

#[test]
fn an_unstamped_build_asks_for_nothing() {
    assert_eq!(current_sha(None), None);
    let body = r#"{"tag_name":"desktop-abc","html_url":"https://gh/rel"}"#;
    assert_eq!(check(None, Some(body)), None);
    assert_eq!(check(Some("old"), None), None);
    assert_eq!(
        check(Some("old"), Some(body)),
        Some(UpdateInfo {
            latest: "abc".to_string(),
            current: "old".to_string(),
            url: "https://gh/rel".to_string(),
        })
    );
}
