//! What the machine supplies: the time, and ids that nothing else has.

use uuid::Uuid;
use vstd::prelude::*;

verus! {

/// `chrono::Utc::now`, spelled as RFC 3339. Nothing is promised of the time.
#[verifier::external_body]
pub(crate) fn now() -> (r: String) {
    chrono::Utc::now().to_rfc3339()
}

/// `chrono::Utc::now`, spelled as RFC 3339, a number of days ago. Nothing is
/// promised of the time.
#[verifier::external_body]
pub(crate) fn days_ago(days: u16) -> (r: String) {
    (chrono::Utc::now() - chrono::Duration::days(days as i64)).to_rfc3339()
}

/// `std::time::SystemTime::elapsed` of the start of 1970, in whole seconds;
/// nothing where the machine's clock stands before that. Nothing is promised of
/// the time.
#[verifier::external_body]
pub(crate) fn unix_seconds() -> (r: Option<u64>) {
    std::time::UNIX_EPOCH.elapsed().ok().map(|d| d.as_secs())
}

/// `uuid::Uuid::new_v4`, in its hyphenated spelling: thirty-six characters.
/// That no two are alike is overwhelmingly likely and is not promised.
#[verifier::external_body]
pub(crate) fn new_id() -> (r: String)
    ensures
        r@.len() == 36,
{
    Uuid::new_v4().to_string()
}

/// The sixteen bytes of a `uuid::Uuid::new_v4`.
#[verifier::external_body]
pub(crate) fn random_bytes() -> (r: Vec<u8>)
    ensures
        r@.len() == 16,
{
    Uuid::new_v4().as_bytes().to_vec()
}

/// As many new ids as asked for.
pub(crate) fn new_ids(count: usize) -> (r: Vec<String>)
    ensures
        r@.len() == count,
        forall|i: int| 0 <= i < r@.len() ==> (#[trigger] r@[i])@.len() == 36,
{
    let mut out: Vec<String> = Vec::new();
    while out.len() < count
        invariant
            out@.len() <= count,
            forall|i: int| 0 <= i < out@.len() ==> (#[trigger] out@[i])@.len() == 36,
        decreases count - out.len(),
    {
        out.push(new_id());
    }
    out
}

} // verus!
