//! The status that the player's overlay follows: one record, changed by patches,
//! with the alerts that follow from it.

use serde_json::Value;
use vstd::prelude::*;

use crate::json;
use crate::json::JsonView;
use crate::text;

verus! {

#[derive(Debug, Clone, Copy, PartialEq, Eq, Structural)]
pub enum StatusPhase {
    Syncing,
    Fetching,
    Playing,
    Drained,
    Error,
}

pub open spec fn phase_word(p: StatusPhase) -> Seq<char> {
    match p {
        StatusPhase::Syncing => "syncing"@,
        StatusPhase::Fetching => "fetching"@,
        StatusPhase::Playing => "playing"@,
        StatusPhase::Drained => "drained"@,
        StatusPhase::Error => "error"@,
    }
}

impl StatusPhase {
    pub fn as_str(self) -> (r: &'static str)
        ensures
            r@ == phase_word(self),
    {
        match self {
            StatusPhase::Syncing => "syncing",
            StatusPhase::Fetching => "fetching",
            StatusPhase::Playing => "playing",
            StatusPhase::Drained => "drained",
            StatusPhase::Error => "error",
        }
    }
}

/// An entry of the round as the overlay lists it.
#[derive(Debug, Clone)]
pub struct StatusRoundEntry {
    pub show_id: String,
    pub show_name: String,
    pub episode_id: String,
    pub playlist: String,
    pub order_value: u32,
    pub absolute_path: String,
}

pub open spec fn round_entry_record(e: StatusRoundEntry) -> JsonView {
    let r = json::empty_record();
    let r = json::with_field(r, "show_id"@, JsonView::Text(e.show_id@));
    let r = json::with_field(r, "show_name"@, JsonView::Text(e.show_name@));
    let r = json::with_field(r, "episode_id"@, JsonView::Text(e.episode_id@));
    let r = json::with_field(r, "playlist"@, JsonView::Text(e.playlist@));
    let r = json::with_field(r, "order_value"@, JsonView::Int(e.order_value as int));
    json::with_field(r, "absolute_path"@, JsonView::Text(e.absolute_path@))
}

/// A finished show as the overlay bids it farewell.
#[derive(Debug, Clone)]
pub struct StatusRemovedShow {
    pub id: String,
    pub name: String,
    pub date_added: String,
    pub last_played_at: String,
}

pub open spec fn removed_show_record(s: StatusRemovedShow) -> JsonView {
    let r = json::empty_record();
    let r = json::with_field(r, "id"@, JsonView::Text(s.id@));
    let r = json::with_field(r, "name"@, JsonView::Text(s.name@));
    let r = json::with_field(r, "date_added"@, JsonView::Text(s.date_added@));
    json::with_field(r, "last_played_at"@, JsonView::Text(s.last_played_at@))
}

/// A file that could not be had, as the overlay tells it.
#[derive(Debug, Clone)]
pub struct StatusFileSyncProblem {
    pub episode_id: String,
    pub show_name: String,
    pub source_path: String,
    pub local_path: String,
    pub reason: String,
}

pub open spec fn problem_record(p: StatusFileSyncProblem) -> JsonView {
    let r = json::empty_record();
    let r = json::with_field(r, "episode_id"@, JsonView::Text(p.episode_id@));
    let r = json::with_field(r, "show_name"@, JsonView::Text(p.show_name@));
    let r = json::with_field(r, "source_path"@, JsonView::Text(p.source_path@));
    let r = json::with_field(r, "local_path"@, JsonView::Text(p.local_path@));
    json::with_field(r, "reason"@, JsonView::Text(p.reason@))
}

/// What became of the round's files, as the overlay tells it.
#[derive(Debug, Clone)]
pub struct StatusFileSync {
    pub copied: usize,
    pub cached: usize,
    pub missing: usize,
    pub failed: usize,
    pub summary: String,
    pub incomplete: bool,
    pub problems: Vec<StatusFileSyncProblem>,
}

pub open spec fn file_sync_record(f: StatusFileSync) -> JsonView {
    let r = json::empty_record();
    let r = json::with_field(r, "copied"@, JsonView::Int(f.copied as int));
    let r = json::with_field(r, "cached"@, JsonView::Int(f.cached as int));
    let r = json::with_field(r, "missing"@, JsonView::Int(f.missing as int));
    let r = json::with_field(r, "failed"@, JsonView::Int(f.failed as int));
    let r = json::with_field(r, "summary"@, JsonView::Text(f.summary@));
    let r = json::with_field(r, "incomplete"@, JsonView::Bool(f.incomplete));
    json::with_field(
        r,
        "problems"@,
        JsonView::List(f.problems@.map_values(|p: StatusFileSyncProblem| problem_record(p))),
    )
}

// ── patches ─────────────────────────────────────────────────────────────

/// Fields of the status to be set.
#[derive(Debug, Clone)]
pub struct StatusPatch {
    pub fields: Value,
}

impl StatusPatch {
    pub open spec fn record(self) -> JsonView {
        json::json_view(self.fields)
    }
}

/// A phase with its message. Any phase but that of an error clears what an error
/// left.
pub open spec fn phase_record(phase: StatusPhase, message: Seq<char>) -> JsonView {
    let r = json::empty_record();
    let r = json::with_field(r, "phase"@, JsonView::Text(phase_word(phase)));
    let r = json::with_field(r, "message"@, JsonView::Text(message));
    if phase is Error {
        r
    } else {
        let r = json::with_field(r, "error_kind"@, JsonView::Null);
        json::with_field(r, "round_blocked"@, JsonView::Bool(false))
    }
}

pub open spec fn playing_record(round: Seq<StatusRoundEntry>, pos: nat, round_id: int) -> JsonView {
    let r = phase_record(StatusPhase::Playing, "round of "@ + text::decimal(round.len()));
    let r = json::with_field(
        r,
        "round"@,
        JsonView::List(round.map_values(|e: StatusRoundEntry| round_entry_record(e))),
    );
    let r = json::with_field(r, "round_pos"@, JsonView::Int(pos as int));
    json::with_field(r, "round_id"@, JsonView::Int(round_id))
}

pub open spec fn advance_record(removed: Seq<StatusRemovedShow>, count: nat) -> JsonView {
    let r = json::with_field(
        json::empty_record(),
        "advanced_count"@,
        JsonView::Int(count as int),
    );
    let r = json::with_field(
        r,
        "removed_shows"@,
        JsonView::List(removed.map_values(|s: StatusRemovedShow| removed_show_record(s))),
    );
    json::with_field(json::empty_record(), "last_advance"@, r)
}

pub open spec fn drained_record() -> JsonView {
    let r = phase_record(StatusPhase::Drained, "every show finished"@);
    let r = json::with_field(r, "round"@, JsonView::List(Seq::empty()));
    json::with_field(r, "round_id"@, JsonView::Null)
}

pub open spec fn unplayable_record(message: Seq<char>) -> JsonView {
    let r = phase_record(StatusPhase::Error, message);
    let r = json::with_field(r, "error_kind"@, JsonView::Text("round_unplayable"@));
    let r = json::with_field(r, "round_blocked"@, JsonView::Bool(true));
    json::with_field(r, "round_id"@, JsonView::Null)
}

pub open spec fn window_record(maximized: bool, fullscreen: bool, on_top: bool) -> JsonView {
    let r = json::empty_record();
    let r = json::with_field(r, "window_maximized"@, JsonView::Bool(maximized));
    let r = json::with_field(r, "window_fullscreen"@, JsonView::Bool(fullscreen));
    json::with_field(r, "window_on_top"@, JsonView::Bool(on_top))
}

fn round_entry_json(e: &StatusRoundEntry) -> (r: Value)
    ensures
        json::json_view(r) == round_entry_record(*e),
{
    let mut r = json::record();
    json::put(&mut r, "show_id", json::text(e.show_id.as_str()));
    json::put(&mut r, "show_name", json::text(e.show_name.as_str()));
    json::put(&mut r, "episode_id", json::text(e.episode_id.as_str()));
    json::put(&mut r, "playlist", json::text(e.playlist.as_str()));
    json::put(&mut r, "order_value", json::natural(e.order_value as u64));
    json::put(&mut r, "absolute_path", json::text(e.absolute_path.as_str()));
    r
}

fn removed_show_json(s: &StatusRemovedShow) -> (r: Value)
    ensures
        json::json_view(r) == removed_show_record(*s),
{
    let mut r = json::record();
    json::put(&mut r, "id", json::text(s.id.as_str()));
    json::put(&mut r, "name", json::text(s.name.as_str()));
    json::put(&mut r, "date_added", json::text(s.date_added.as_str()));
    json::put(&mut r, "last_played_at", json::text(s.last_played_at.as_str()));
    r
}

fn problem_json(p: &StatusFileSyncProblem) -> (r: Value)
    ensures
        json::json_view(r) == problem_record(*p),
{
    let mut r = json::record();
    json::put(&mut r, "episode_id", json::text(p.episode_id.as_str()));
    json::put(&mut r, "show_name", json::text(p.show_name.as_str()));
    json::put(&mut r, "source_path", json::text(p.source_path.as_str()));
    json::put(&mut r, "local_path", json::text(p.local_path.as_str()));
    json::put(&mut r, "reason", json::text(p.reason.as_str()));
    r
}

impl StatusPatch {
    /// The player's phase, with a message.
    pub fn phase(phase: StatusPhase, message: &str) -> (r: StatusPatch)
        ensures
            r.record() == phase_record(phase, message@),
    {
        let mut fields = json::record();
        json::put(&mut fields, "phase", json::text(phase.as_str()));
        json::put(&mut fields, "message", json::text(message));
        match phase {
            StatusPhase::Error => {},
            _ => {
                json::put(&mut fields, "error_kind", json::null());
                json::put(&mut fields, "round_blocked", json::boolean(false));
            },
        }
        StatusPatch { fields }
    }

    /// A round is on, from a place in it.
    pub fn playing(round: Vec<StatusRoundEntry>, pos: usize, round_id: i64) -> (r: StatusPatch)
        ensures
            r.record() == playing_record(round@, pos as nat, round_id as int),
    {
        let count = text::spell(round.len() as u64);
        let message = "round of ".to_owned().concat(count.as_str());
        let mut patch = StatusPatch::phase(StatusPhase::Playing, message.as_str());
        let mut items: Vec<Value> = Vec::new();
        let mut i: usize = 0;
        while i < round.len()
            invariant
                i <= round@.len(),
                items@.len() == i,
                forall|j: int|
                    0 <= j < i ==> json::json_view(#[trigger] items@[j]) == round_entry_record(
                        round@[j],
                    ),
            decreases round.len() - i,
        {
            items.push(round_entry_json(&round[i]));
            i = i + 1;
        }
        assert(json::views(items@) =~= round@.map_values(
            |e: StatusRoundEntry| round_entry_record(e),
        ));
        json::put(&mut patch.fields, "round", json::list(items));
        json::put(&mut patch.fields, "round_pos", json::natural(pos as u64));
        json::put(&mut patch.fields, "round_id", json::integer(round_id));
        patch
    }

    /// Episodes were watched, and shows finished by it.
    pub fn advance(removed_shows: Vec<StatusRemovedShow>, advanced_count: usize) -> (r: StatusPatch)
        ensures
            r.record() == advance_record(removed_shows@, advanced_count as nat),
    {
        let mut items: Vec<Value> = Vec::new();
        let mut i: usize = 0;
        while i < removed_shows.len()
            invariant
                i <= removed_shows@.len(),
                items@.len() == i,
                forall|j: int|
                    0 <= j < i ==> json::json_view(#[trigger] items@[j]) == removed_show_record(
                        removed_shows@[j],
                    ),
            decreases removed_shows.len() - i,
        {
            items.push(removed_show_json(&removed_shows[i]));
            i = i + 1;
        }
        assert(json::views(items@) =~= removed_shows@.map_values(
            |s: StatusRemovedShow| removed_show_record(s),
        ));
        let mut last = json::record();
        json::put(&mut last, "advanced_count", json::natural(advanced_count as u64));
        json::put(&mut last, "removed_shows", json::list(items));
        let mut fields = json::record();
        json::put(&mut fields, "last_advance", last);
        StatusPatch { fields }
    }

    /// Nothing is left to play.
    pub fn drained() -> (r: StatusPatch)
        ensures
            r.record() == drained_record(),
    {
        let mut patch = StatusPatch::phase(StatusPhase::Drained, "every show finished");
        let none: Vec<Value> = Vec::new();
        assert(json::views(none@) =~= Seq::empty());
        json::put(&mut patch.fields, "round", json::list(none));
        json::put(&mut patch.fields, "round_id", json::null());
        patch
    }

    /// Nothing of the round would open.
    pub fn round_unplayable(message: &str) -> (r: StatusPatch)
        ensures
            r.record() == unplayable_record(message@),
    {
        let mut patch = StatusPatch::phase(StatusPhase::Error, message);
        json::put(&mut patch.fields, "error_kind", json::text("round_unplayable"));
        json::put(&mut patch.fields, "round_blocked", json::boolean(true));
        json::put(&mut patch.fields, "round_id", json::null());
        patch
    }

    /// The round's files were brought, as far as they could be.
    pub fn file_sync(report: StatusFileSync) -> (r: StatusPatch)
        ensures
            r.record() == json::with_field(
                json::empty_record(),
                "file_sync"@,
                file_sync_record(report),
            ),
    {
        let mut items: Vec<Value> = Vec::new();
        let mut i: usize = 0;
        while i < report.problems.len()
            invariant
                i <= report.problems@.len(),
                items@.len() == i,
                forall|j: int|
                    0 <= j < i ==> json::json_view(#[trigger] items@[j]) == problem_record(
                        report.problems@[j],
                    ),
            decreases report.problems.len() - i,
        {
            items.push(problem_json(&report.problems[i]));
            i = i + 1;
        }
        assert(json::views(items@) =~= report.problems@.map_values(
            |p: StatusFileSyncProblem| problem_record(p),
        ));
        let mut told = json::record();
        json::put(&mut told, "copied", json::natural(report.copied as u64));
        json::put(&mut told, "cached", json::natural(report.cached as u64));
        json::put(&mut told, "missing", json::natural(report.missing as u64));
        json::put(&mut told, "failed", json::natural(report.failed as u64));
        json::put(&mut told, "summary", json::text(report.summary.as_str()));
        json::put(&mut told, "incomplete", json::boolean(report.incomplete));
        json::put(&mut told, "problems", json::list(items));
        let mut fields = json::record();
        json::put(&mut fields, "file_sync", told);
        StatusPatch { fields }
    }

    /// The round is at a place.
    pub fn round_pos(pos: usize) -> (r: StatusPatch)
        ensures
            r.record() == json::with_field(
                json::empty_record(),
                "round_pos"@,
                JsonView::Int(pos as int),
            ),
    {
        let mut fields = json::record();
        json::put(&mut fields, "round_pos", json::natural(pos as u64));
        StatusPatch { fields }
    }

    /// The window is in a state.
    pub fn window_state(maximized: bool, fullscreen: bool, on_top: bool) -> (r: StatusPatch)
        ensures
            r.record() == window_record(maximized, fullscreen, on_top),
    {
        let mut fields = json::record();
        json::put(&mut fields, "window_maximized", json::boolean(maximized));
        json::put(&mut fields, "window_fullscreen", json::boolean(fullscreen));
        json::put(&mut fields, "window_on_top", json::boolean(on_top));
        StatusPatch { fields }
    }
}

// ── alerts ──────────────────────────────────────────────────────────────

pub open spec fn text_or(v: JsonView, key: Seq<char>, otherwise: Seq<char>) -> Seq<char> {
    match json::text_field(v, key) {
        Some(t) => t,
        None => otherwise,
    }
}

pub open spec fn alert(
    level: Seq<char>,
    title: Seq<char>,
    message: Seq<char>,
    detail: Seq<char>,
) -> JsonView {
    let r = json::empty_record();
    let r = json::with_field(r, "level"@, JsonView::Text(level));
    let r = json::with_field(r, "title"@, JsonView::Text(title));
    let r = json::with_field(r, "message"@, JsonView::Text(message));
    json::with_field(r, "detail"@, JsonView::Text(detail))
}

/// Why the origin is offline: the reason where one is known.
pub open spec fn offline_message(sync: JsonView) -> Seq<char> {
    let shared = text_or(sync, "shared_db_path"@, Seq::empty());
    let reason = text_or(sync, "last_error"@, Seq::empty());
    if reason.len() > 0 {
        reason
    } else if shared.len() == 0 {
        "Cannot reach the shared shows database."@
    } else {
        "Cannot reach the shared shows database at "@ + shared + "."@
    }
}

pub open spec fn offline_detail(sync: JsonView) -> Seq<char> {
    let shared = text_or(sync, "shared_db_path"@, Seq::empty());
    if shared.len() == 0 {
        "Map the NAS share, then use sync now or restart the app."@
    } else {
        "Map the NAS share so "@ + shared + " exists, then use sync now or restart the app."@
    }
}

/// The alert for an origin that is offline, where the status says so.
pub open spec fn offline_alert(status: JsonView) -> Option<JsonView> {
    match json::field(status, "sync"@) {
        Some(sync) => if json::bool_field(sync, "online"@) == Some(false) {
            Some(
                alert(
                    "danger"@,
                    "Sync offline"@,
                    offline_message(sync),
                    offline_detail(sync),
                ),
            )
        } else {
            None
        },
        None => None,
    }
}

/// A problem in one line.
pub open spec fn problem_line(p: JsonView) -> Seq<char> {
    let show = text_or(p, "show_name"@, "unknown show"@);
    let reason = text_or(p, "reason"@, "file unavailable"@);
    let source = text_or(p, "source_path"@, Seq::empty());
    if source.len() == 0 {
        show + ": "@ + reason
    } else {
        show + ": "@ + reason + " ("@ + source + ")"@
    }
}

/// The first problems, one line each.
pub open spec fn problems_detail(file_sync: JsonView) -> Seq<char> {
    let problems = match json::field(file_sync, "problems"@) {
        Some(JsonView::List(l)) => l,
        _ => Seq::empty(),
    };
    let told = if problems.len() > 3 {
        problems.take(3)
    } else {
        problems
    };
    if told.len() == 0 {
        "Check the show paths in library or open the log for exact file paths."@
    } else {
        text::joined_with(told.map_values(|p: JsonView| problem_line(p)), "\n"@)
    }
}

/// The alert for files that could not be had, where the status says so. Where
/// nothing of the round would open, it says that.
pub open spec fn files_alert(status: JsonView) -> Option<JsonView> {
    match json::field(status, "file_sync"@) {
        Some(f) => if json::bool_field(f, "incomplete"@) == Some(true) {
            if json::text_field(status, "error_kind"@) == Some("round_unplayable"@) {
                Some(
                    alert(
                        "danger"@,
                        "Round has no playable media"@,
                        text_or(status, "message"@, "No files in this round could be opened."@),
                        problems_detail(f),
                    ),
                )
            } else {
                Some(
                    alert(
                        "warning"@,
                        "Round file sync incomplete"@,
                        text_or(f, "summary"@, "some files were not ready"@),
                        problems_detail(f),
                    ),
                )
            }
        } else {
            None
        },
        None => None,
    }
}

pub open spec fn pushed(s: Seq<JsonView>, x: Option<JsonView>) -> Seq<JsonView> {
    match x {
        Some(v) => s.push(v),
        None => s,
    }
}

/// The alerts that follow from a status.
pub open spec fn alerts_of(status: JsonView) -> Seq<JsonView> {
    pushed(pushed(Seq::empty(), offline_alert(status)), files_alert(status))
}

fn get_or<'a>(v: &'a Value, key: &str, otherwise: &'a str) -> (r: &'a str)
    ensures
        r@ == text_or(json::json_view(*v), key@, otherwise@),
{
    match json::get_text(v, key) {
        Some(t) => t,
        None => otherwise,
    }
}

fn alert_json(level: &str, title: &str, message: &str, detail: &str) -> (r: Value)
    ensures
        json::json_view(r) == alert(level@, title@, message@, detail@),
{
    let mut r = json::record();
    json::put(&mut r, "level", json::text(level));
    json::put(&mut r, "title", json::text(title));
    json::put(&mut r, "message", json::text(message));
    json::put(&mut r, "detail", json::text(detail));
    r
}

fn sync_alert(status: &Value) -> (r: Option<Value>)
    ensures
        match r {
            Some(v) => offline_alert(json::json_view(*status)) == Some(json::json_view(v)),
            None => offline_alert(json::json_view(*status)) is None,
        },
{
    match json::get_field(status, "sync") {
        Some(sync) => {
            let offline = match json::get_bool(sync, "online") {
                Some(online) => !online,
                None => false,
            };
            if !offline {
                return None;
            }
            proof {
                reveal_strlit("");
            }
            let shared = get_or(sync, "shared_db_path", "");
            let reason = get_or(sync, "last_error", "");
            assert(""@ =~= Seq::empty());
            let message = if !reason.is_empty() {
                reason.to_owned()
            } else if shared.is_empty() {
                "Cannot reach the shared shows database.".to_owned()
            } else {
                let mut m = "Cannot reach the shared shows database at ".to_owned();
                m.append(shared);
                m.append(".");
                m
            };
            let detail = if shared.is_empty() {
                "Map the NAS share, then use sync now or restart the app.".to_owned()
            } else {
                let mut d = "Map the NAS share so ".to_owned();
                d.append(shared);
                d.append(" exists, then use sync now or restart the app.");
                d
            };
            Some(alert_json("danger", "Sync offline", message.as_str(), detail.as_str()))
        },
        None => None,
    }
}

fn line_of(p: &Value) -> (r: String)
    ensures
        r@ == problem_line(json::json_view(*p)),
{
    proof {
        reveal_strlit("");
    }
    let source = get_or(p, "source_path", "");
    assert(""@ =~= Seq::empty());
    let mut line = get_or(p, "show_name", "unknown show").to_owned();
    line.append(": ");
    line.append(get_or(p, "reason", "file unavailable"));
    if !source.is_empty() {
        line.append(" (");
        line.append(source);
        line.append(")");
    }
    line
}

fn detail_of(file_sync: &Value) -> (r: String)
    ensures
        r@ == problems_detail(json::json_view(*file_sync)),
{
    let none: Vec<Value> = Vec::new();
    let problems: &Vec<Value> = match json::get_field(file_sync, "problems") {
        Some(list) => match list.as_array() {
            Some(items) => items,
            None => &none,
        },
        None => &none,
    };
    let ghost all = match json::field(json::json_view(*file_sync), "problems"@) {
        Some(JsonView::List(l)) => l,
        _ => Seq::empty(),
    };
    assert(json::views(problems@) =~= all);
    let ghost told = if all.len() > 3 {
        all.take(3)
    } else {
        all
    };
    let mut lines: Vec<String> = Vec::new();
    let mut i: usize = 0;
    while i < problems.len() && i < 3
        invariant
            i <= problems@.len(),
            i <= 3,
            lines@.len() == i,
            all == json::views(problems@),
            forall|j: int| 0 <= j < i ==> (#[trigger] lines@[j])@ == problem_line(all[j]),
        decreases problems.len() - i,
    {
        assert(all[i as int] == json::json_view(problems@[i as int]));
        lines.push(line_of(&problems[i]));
        i = i + 1;
    }
    assert(lines.deep_view() =~= told.map_values(|p: JsonView| problem_line(p)));
    if lines.len() == 0 {
        "Check the show paths in library or open the log for exact file paths.".to_owned()
    } else {
        text::join_text(lines.as_slice(), "\n")
    }
}

fn file_alert(status: &Value) -> (r: Option<Value>)
    ensures
        match r {
            Some(v) => files_alert(json::json_view(*status)) == Some(json::json_view(v)),
            None => files_alert(json::json_view(*status)) is None,
        },
{
    match json::get_field(status, "file_sync") {
        Some(f) => {
            let incomplete = match json::get_bool(f, "incomplete") {
                Some(b) => b,
                None => false,
            };
            if !incomplete {
                return None;
            }
            let detail = detail_of(f);
            let unplayable = match json::get_text(status, "error_kind") {
                Some(kind) => text::same_text(kind, "round_unplayable"),
                None => false,
            };
            if unplayable {
                let message = get_or(
                    status,
                    "message",
                    "No files in this round could be opened.",
                );
                Some(
                    alert_json("danger", "Round has no playable media", message, detail.as_str()),
                )
            } else {
                let summary = get_or(f, "summary", "some files were not ready");
                Some(
                    alert_json("warning", "Round file sync incomplete", summary, detail.as_str()),
                )
            }
        },
        None => None,
    }
}

/// The alerts that follow from a status.
pub fn status_alerts(status: &Value) -> (r: Value)
    ensures
        json::json_view(r) == JsonView::List(alerts_of(json::json_view(*status))),
{
    let mut alerts: Vec<Value> = Vec::new();
    assert(json::views(alerts@) =~= Seq::empty());
    match sync_alert(status) {
        Some(a) => {
            let ghost before = json::views(alerts@);
            alerts.push(a);
            assert(json::views(alerts@) =~= before.push(json::json_view(a)));
        },
        None => {},
    }
    match file_alert(status) {
        Some(a) => {
            let ghost before = json::views(alerts@);
            alerts.push(a);
            assert(json::views(alerts@) =~= before.push(json::json_view(a)));
        },
        None => {},
    }
    json::list(alerts)
}

// ── the status ──────────────────────────────────────────────────────────

/// The status before anything happened.
pub open spec fn initial_record(playlists: Seq<Seq<char>>) -> JsonView {
    let r = json::empty_record();
    let r = json::with_field(r, "phase"@, JsonView::Text("initializing"@));
    let r = json::with_field(r, "message"@, JsonView::Text("starting up"@));
    let r = json::with_field(
        r,
        "playlist"@,
        JsonView::Text(text::joined_with(playlists, ", "@)),
    );
    let r = json::with_field(r, "round"@, JsonView::List(Seq::empty()));
    let r = json::with_field(r, "round_pos"@, JsonView::Int(0));
    let r = json::with_field(r, "round_id"@, JsonView::Null);
    let r = json::with_field(r, "error_kind"@, JsonView::Null);
    let r = json::with_field(r, "round_blocked"@, JsonView::Bool(false));
    let r = json::with_field(r, "window_maximized"@, JsonView::Bool(false));
    let r = json::with_field(r, "window_fullscreen"@, JsonView::Bool(false));
    json::with_field(r, "window_on_top"@, JsonView::Bool(false))
}

pub open spec fn database_record(path: Seq<char>, revision: i64) -> JsonView {
    let r = json::empty_record();
    let r = json::with_field(r, "path"@, JsonView::Text(path));
    let r = json::with_field(r, "authoritative"@, JsonView::Bool(true));
    json::with_field(r, "revision"@, JsonView::Int(revision as int))
}

/// A snapshot of the status: with what the player says of itself, if there is a
/// player, with the database, and with the alerts.
pub open spec fn snapshot_record(
    status: JsonView,
    playback: Option<JsonView>,
    path: Seq<char>,
    revision: i64,
) -> JsonView {
    let r = match playback {
        Some(p) => json::with_field(status, "playback"@, p),
        None => status,
    };
    let r = json::with_field(r, "database"@, database_record(path, revision));
    json::with_field(r, "alerts"@, JsonView::List(alerts_of(r)))
}

/// The status of a player, and how many frames were sent of it.
#[derive(Debug, Clone)]
pub struct Status {
    pub fields: Value,
    pub frames: u64,
}

pub open spec fn playback_view(p: Option<Value>) -> Option<JsonView> {
    match p {
        Some(v) => Some(json::json_view(v)),
        None => None,
    }
}

impl Status {
    pub open spec fn record(self) -> JsonView {
        json::json_view(self.fields)
    }

    /// The status before anything happened.
    pub fn new(playlists: &[String]) -> (r: Status)
        ensures
            r.record() == initial_record(playlists.deep_view()),
            r.frames == 0,
    {
        let names = text::join_text(playlists, ", ");
        let mut fields = json::record();
        json::put(&mut fields, "phase", json::text("initializing"));
        json::put(&mut fields, "message", json::text("starting up"));
        json::put(&mut fields, "playlist", json::text(names.as_str()));
        let none: Vec<Value> = Vec::new();
        assert(json::views(none@) =~= Seq::empty());
        json::put(&mut fields, "round", json::list(none));
        json::put(&mut fields, "round_pos", json::integer(0));
        json::put(&mut fields, "round_id", json::null());
        json::put(&mut fields, "error_kind", json::null());
        json::put(&mut fields, "round_blocked", json::boolean(false));
        json::put(&mut fields, "window_maximized", json::boolean(false));
        json::put(&mut fields, "window_fullscreen", json::boolean(false));
        json::put(&mut fields, "window_on_top", json::boolean(false));
        Status { fields, frames: 0 }
    }

    /// Sets the fields of a patch.
    pub fn push_status(&mut self, patch: StatusPatch)
        ensures
            final(self).record() == json::merged(old(self).record(), patch.record()),
            final(self).frames == old(self).frames,
    {
        json::merge(&mut self.fields, patch.fields);
    }

    /// Sets the fields of a record. Says whether it was one, so that followers
    /// are to be told.
    pub fn push_raw(&mut self, updates: Value) -> (r: bool)
        ensures
            r == (json::json_view(updates) is Record),
            final(self).record() == json::merged(old(self).record(), json::json_view(updates)),
            final(self).frames == old(self).frames,
    {
        let changed = updates.is_object();
        json::merge(&mut self.fields, updates);
        changed
    }

    /// A snapshot of the status.
    pub fn status_json(&self, playback: Option<Value>, path: &str, revision: i64) -> (r: Value)
        ensures
            json::json_view(r) == snapshot_record(
                self.record(),
                playback_view(playback),
                path@,
                revision,
            ),
    {
        let mut r = self.fields.clone();
        match playback {
            Some(p) => json::put(&mut r, "playback", p),
            None => {},
        }
        let mut database = json::record();
        json::put(&mut database, "path", json::text(path));
        json::put(&mut database, "authoritative", json::boolean(true));
        json::put(&mut database, "revision", json::integer(revision));
        json::put(&mut r, "database", database);
        let alerts = status_alerts(&r);
        json::put(&mut r, "alerts", alerts);
        r
    }

    /// The next frame of the status stream, with a snapshot in it.
    pub fn status_frame(&mut self, snapshot: &Value) -> (r: String)
        requires
            old(self).frames < u64::MAX,
        ensures
            final(self).fields == old(self).fields,
            final(self).frames == old(self).frames + 1,
            r@ == framed(
                (old(self).frames + 1) as nat,
                "status"@,
                json::json_compact(json::json_view(*snapshot)),
            ),
    {
        self.frames = self.frames + 1;
        sse_frame(self.frames, "status", snapshot)
    }
}

// ── frames ──────────────────────────────────────────────────────────────

/// A text over several data lines: one for every line of it.
pub open spec fn data_lines(s: Seq<char>) -> Seq<char>
    decreases s.len(),
{
    if s.len() == 0 {
        s
    } else if s.last() == '\n' {
        data_lines(s.drop_last()) + "\ndata: "@
    } else {
        data_lines(s.drop_last()).push(s.last())
    }
}

/// A frame of a stream of server-sent events.
pub open spec fn framed(id: nat, event: Seq<char>, data: Seq<char>) -> Seq<char> {
    "id: "@ + text::decimal(id) + "\nevent: "@ + event + "\ndata: "@ + data_lines(data) + "\n\n"@
}

fn with_data_lines(s: &str) -> (r: String)
    ensures
        r@ == data_lines(s@),
{
    let chars = text::chars_of(s);
    let mut out = String::new();
    let mut i: usize = 0;
    assert(out@ =~= data_lines(chars@.take(0)));
    while i < chars.len()
        invariant
            i <= chars@.len(),
            out@ == data_lines(chars@.take(i as int)),
        decreases chars.len() - i,
    {
        proof {
            assert(chars@.take(i + 1).drop_last() =~= chars@.take(i as int));
            assert(chars@.take(i + 1).last() == chars@[i as int]);
        }
        if chars[i] == '\n' {
            out.append("\ndata: ");
        } else {
            out.push(chars[i]);
        }
        i = i + 1;
    }
    assert(chars@.take(i as int) =~= s@);
    out
}

/// A frame that carries a value.
pub fn sse_frame(id: u64, event: &str, value: &Value) -> (r: String)
    ensures
        r@ == framed(id as nat, event@, json::json_compact(json::json_view(*value))),
{
    let data = json::print_compact(value);
    let lines = with_data_lines(data.as_str());
    let mut out = "id: ".to_owned();
    let spelled = text::spell(id);
    out.append(spelled.as_str());
    out.append("\nevent: ");
    out.append(event);
    out.append("\ndata: ");
    out.append(lines.as_str());
    out.append("\n\n");
    out
}

// ── laws ────────────────────────────────────────────────────────────────

/// Setting fields never takes one away: what a follower relies on stays there.
pub proof fn law_fields_stay(status: JsonView, patch: JsonView, key: Seq<char>)
    requires
        json::field(status, key) is Some,
    ensures
        json::field(json::merged(status, patch), key) is Some,
        json::field(patch, key) is Some ==> json::field(json::merged(status, patch), key)
            == json::field(patch, key),
        json::field(patch, key) is None ==> json::field(json::merged(status, patch), key)
            == json::field(status, key),
{
}

proof fn lemma_phase_fields(phase: StatusPhase, message: Seq<char>)
    ensures
        json::field(phase_record(phase, message), "phase"@) == Some(
            JsonView::Text(phase_word(phase)),
        ),
        phase !is Error ==> json::field(phase_record(phase, message), "error_kind"@) == Some(
            JsonView::Null,
        ),
        phase !is Error ==> json::field(phase_record(phase, message), "round_blocked"@) == Some(
            JsonView::Bool(false),
        ),
{
    reveal_strlit("phase");
    reveal_strlit("message");
    reveal_strlit("error_kind");
    reveal_strlit("round_blocked");
    assert("phase"@.len() == 5 && "message"@.len() == 7 && "error_kind"@.len() == 10
        && "round_blocked"@.len() == 13);
}

/// Any phase but that of an error clears what an error left.
pub proof fn law_phase_clears_the_error(status: JsonView, phase: StatusPhase, message: Seq<char>)
    requires
        status is Record,
        phase !is Error,
    ensures
        json::field(
            json::merged(status, phase_record(phase, message)),
            "error_kind"@,
        ) == Some(JsonView::Null),
        json::field(
            json::merged(status, phase_record(phase, message)),
            "round_blocked"@,
        ) == Some(JsonView::Bool(false)),
{
    lemma_phase_fields(phase, message);
}

/// A snapshot tells the alerts of what it says itself.
pub proof fn law_snapshot_alerts(
    status: JsonView,
    playback: Option<JsonView>,
    path: Seq<char>,
    revision: i64,
)
    requires
        status is Record,
    ensures
        ({
            let s = snapshot_record(status, playback, path, revision);
            &&& json::field(s, "alerts"@) == Some(JsonView::List(alerts_of(s)))
            &&& json::field(s, "database"@) == Some(database_record(path, revision))
        }),
{
    reveal_strlit("alerts");
    reveal_strlit("sync");
    reveal_strlit("file_sync");
    reveal_strlit("error_kind");
    reveal_strlit("message");
    reveal_strlit("database");
    assert("alerts"@.len() == 6 && "sync"@.len() == 4 && "file_sync"@.len() == 9
        && "error_kind"@.len() == 10 && "message"@.len() == 7 && "database"@.len() == 8);
    let r = match playback {
        Some(p) => json::with_field(status, "playback"@, p),
        None => status,
    };
    let d = json::with_field(r, "database"@, database_record(path, revision));
    let s = snapshot_record(status, playback, path, revision);
    assert(json::field(s, "sync"@) == json::field(d, "sync"@));
    assert(json::field(s, "file_sync"@) == json::field(d, "file_sync"@));
    assert(json::field(s, "error_kind"@) == json::field(d, "error_kind"@));
    assert(json::field(s, "message"@) == json::field(d, "message"@));
    assert(offline_alert(s) == offline_alert(d));
    assert(files_alert(s) == files_alert(d));
}

} // verus!
