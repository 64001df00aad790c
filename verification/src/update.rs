//! Whether a newer build is out. Any problem, a development build among them,
//! means that nothing is said.

use vstd::prelude::*;

use crate::json;
use crate::text;

verus! {

/// Release tags are this, followed by the short hash of the build.
pub const TAG_PREFIX: &'static str = "desktop-";

/// A release that differs from this build.
#[derive(Debug, Clone, PartialEq, Eq)]
pub struct UpdateInfo {
    pub latest: String,
    pub current: String,
    pub url: String,
}

#[verifier::ext_equal]
pub struct UpdateInfoView {
    pub latest: Seq<char>,
    pub current: Seq<char>,
    pub url: Seq<char>,
}

impl DeepView for UpdateInfo {
    type V = UpdateInfoView;

    open spec fn deep_view(&self) -> UpdateInfoView {
        UpdateInfoView { latest: self.latest@, current: self.current@, url: self.url@ }
    }
}

/// The hash that a build was stamped with: none where it was not stamped, or
/// stamped with nothing but blanks.
pub open spec fn stamped_sha(stamp: Option<Seq<char>>) -> Option<Seq<char>> {
    match stamp {
        Some(s) => if text::trimmed(s).len() == 0 {
            None
        } else {
            Some(text::trimmed(s))
        },
        None => None,
    }
}

/// The hash this build was stamped with.
pub fn current_sha(stamp: Option<&str>) -> (r: Option<String>)
    ensures
        r.deep_view() == stamped_sha(stamp.deep_view()),
{
    match stamp {
        Some(s) => {
            let t = text::trim_text(s);
            if t.as_str().is_empty() {
                None
            } else {
                Some(t)
            }
        },
        None => None,
    }
}

/// The version that a release tag names: what follows the prefix, or the whole
/// tag where it has no prefix.
pub open spec fn version_of(tag: Seq<char>) -> Seq<char> {
    match text::after_prefix(tag, TAG_PREFIX@) {
        Some(rest) => rest,
        None => tag,
    }
}

pub open spec fn update_for(current: Seq<char>, tag: Seq<char>, url: Seq<char>) -> Option<
    UpdateInfoView,
> {
    let latest = version_of(tag);
    if latest.len() > 0 && latest != current {
        Some(UpdateInfoView { latest, current, url })
    } else {
        None
    }
}

/// Compares this build with the latest release: an update is told of where the
/// release has a version and it is not this build's.
pub fn compare(current: &str, tag: &str, url: &str) -> (r: Option<UpdateInfo>)
    ensures
        r.deep_view() == update_for(current@, tag@, url@),
{
    let latest = match text::strip_start(tag, TAG_PREFIX) {
        Some(rest) => rest,
        None => tag.to_owned(),
    };
    if !latest.as_str().is_empty() && !text::same_text(latest.as_str(), current) {
        Some(UpdateInfo { latest, current: current.to_owned(), url: url.to_owned() })
    } else {
        None
    }
}

/// The tag and the page of a release, as the answer of the releases service
/// tells them: nothing where it tells no tag, and an empty page where it tells
/// none.
pub open spec fn release_in(answer: json::JsonView) -> Option<(Seq<char>, Seq<char>)> {
    match json::text_field(answer, "tag_name"@) {
        Some(tag) => Some(
            (
                tag,
                match json::text_field(answer, "html_url"@) {
                    Some(url) => url,
                    None => Seq::empty(),
                },
            ),
        ),
        None => None,
    }
}

/// Reads the tag and the page out of a parsed answer.
pub fn release_of(answer: &serde_json::Value) -> (r: Option<(String, String)>)
    ensures
        r.deep_view() == release_in(json::json_view(*answer)),
{
    match json::get_text(answer, "tag_name") {
        Some(tag) => {
            let url = match json::get_text(answer, "html_url") {
                Some(u) => u.to_owned(),
                None => String::new(),
            };
            Some((tag.to_owned(), url))
        },
        None => None,
    }
}

/// Reads the tag and the page out of the text of an answer.
pub fn latest_release(body: &str) -> (r: Option<(String, String)>)
    ensures
        r.deep_view() == match json::json_parse(body@) {
            Ok(answer) => release_in(answer),
            Err(_) => None,
        },
{
    match json::parse(body) {
        Ok(answer) => release_of(&answer),
        Err(_) => None,
    }
}

pub open spec fn checked(stamp: Option<Seq<char>>, body: Option<Seq<char>>) -> Option<
    UpdateInfoView,
> {
    match (stamped_sha(stamp), body) {
        (Some(current), Some(b)) => match json::json_parse(b) {
            Ok(answer) => match release_in(answer) {
                Some((tag, url)) => update_for(current, tag, url),
                None => None,
            },
            Err(_) => None,
        },
        _ => None,
    }
}

/// Compares this build with what the releases service answered, if it did.
pub fn check(stamp: Option<&str>, body: Option<&str>) -> (r: Option<UpdateInfo>)
    ensures
        r.deep_view() == checked(stamp.deep_view(), body.deep_view()),
{
    match (current_sha(stamp), body) {
        (Some(current), Some(b)) => match latest_release(b) {
            Some((tag, url)) => compare(current.as_str(), tag.as_str(), url.as_str()),
            None => None,
        },
        _ => None,
    }
}

} // verus!
