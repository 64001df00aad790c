//! What the control server answers, and what a request changes.

use serde_json::Value;
use vstd::prelude::*;

use crate::json;
use crate::json::JsonView;
use crate::library;
use crate::queue;
use crate::replica;
use crate::replica::{Replica, Track};
use crate::routes;
use crate::routes::{PostRequest, PostView, WindowAction};
use crate::runner;
use crate::runner::{ControlOutcome, Effect, EffectView, Runner, RunnerView};
use crate::status;
use crate::status::{Status, StatusPatch, StatusPhase};
use crate::tables;
use crate::tables::ShowRow;
use crate::text;

verus! {

/// An answer: a status code, and a value.
#[derive(Debug, Clone)]
pub struct Reply {
    pub code: u16,
    pub body: Value,
}

#[verifier::ext_equal]
pub struct ReplyView {
    pub code: u16,
    pub body: JsonView,
}

impl DeepView for Reply {
    type V = ReplyView;

    open spec fn deep_view(&self) -> ReplyView {
        ReplyView { code: self.code, body: json::json_view(self.body) }
    }
}

pub open spec fn control_record(ok: bool, status: Seq<char>, message: Seq<char>) -> JsonView {
    let r = json::empty_record();
    let r = json::with_field(r, "ok"@, JsonView::Bool(ok));
    let r = json::with_field(r, "status"@, JsonView::Text(status));
    json::with_field(r, "message"@, JsonView::Text(message))
}

pub open spec fn done(status: Seq<char>, message: Seq<char>) -> ReplyView {
    ReplyView { code: 200, body: control_record(true, status, message) }
}

pub open spec fn refused(code: u16, status: Seq<char>, message: Seq<char>) -> ReplyView {
    ReplyView { code, body: control_record(false, status, message) }
}

/// The answer to a control of the round: a control that did nothing is answered
/// with a conflict, and one with no runner as not available.
pub open spec fn outcome_reply(outcome: Option<runner::OutcomeView>) -> ReplyView {
    match outcome {
        Some(o) => ReplyView {
            code: if o.ok {
                200
            } else {
                409
            },
            body: control_record(o.ok, o.status, o.message),
        },
        None => refused(503, "runner_unavailable"@, "runner is not ready"@),
    }
}

pub open spec fn show_not_found(id: Seq<char>) -> ReplyView {
    refused(404, "show_not_found"@, "show "@ + id + " was not found"@)
}

fn control_json(ok: bool, status: &str, message: &str) -> (r: Value)
    ensures
        json::json_view(r) == control_record(ok, status@, message@),
{
    let mut r = json::record();
    json::put(&mut r, "ok", json::boolean(ok));
    json::put(&mut r, "status", json::text(status));
    json::put(&mut r, "message", json::text(message));
    r
}

/// What came of a control, as a value.
pub fn control_outcome_json(outcome: &ControlOutcome) -> (r: Value)
    ensures
        json::json_view(r) == control_record(
            outcome.deep_view().ok,
            outcome.deep_view().status,
            outcome.deep_view().message,
        ),
{
    control_json(outcome.ok(), outcome.status(), outcome.message())
}

/// The answer to a control that was carried out.
pub fn respond_control_ok(status: &str, message: &str) -> (r: Reply)
    ensures
        r.deep_view() == done(status@, message@),
{
    Reply { code: 200, body: control_json(true, status, message) }
}

fn refuse(code: u16, status: &str, message: &str) -> (r: Reply)
    ensures
        r.deep_view() == refused(code, status@, message@),
{
    Reply { code, body: control_json(false, status, message) }
}

/// The answer to a control of the round.
pub fn respond_control_outcome(outcome: &ControlOutcome) -> (r: Reply)
    ensures
        r.deep_view() == outcome_reply(Some(outcome.deep_view())),
{
    let code: u16 = if outcome.ok() {
        200
    } else {
        409
    };
    Reply { code, body: control_outcome_json(outcome) }
}

fn no_runner() -> (r: Reply)
    ensures
        r.deep_view() == outcome_reply(None),
{
    refuse(503, "runner_unavailable", "runner is not ready")
}

fn no_show(id: &str) -> (r: Reply)
    ensures
        r.deep_view() == show_not_found(id@),
{
    let mut message = "show ".to_owned();
    message.append(id);
    message.append(" was not found");
    refuse(404, "show_not_found", message.as_str())
}

// ── the server ──────────────────────────────────────────────────────────

/// What the control server knows: the playlists, the status, and the runner once
/// there is one.
#[derive(Debug, Clone)]
pub struct ControlServer {
    pub playlists: Vec<String>,
    pub status: Status,
    pub runner: Option<Runner>,
}

#[verifier::ext_equal]
pub struct ControlView {
    pub playlists: Seq<Seq<char>>,
    pub status: JsonView,
    pub frames: u64,
    pub runner: Option<RunnerView>,
}

impl DeepView for ControlServer {
    type V = ControlView;

    open spec fn deep_view(&self) -> ControlView {
        ControlView {
            playlists: self.playlists.deep_view(),
            status: self.status.record(),
            frames: self.status.frames,
            runner: self.runner.deep_view(),
        }
    }
}

/// What a request did.
#[verifier::ext_equal]
pub struct AnswerView {
    pub server: ControlView,
    pub library: replica::LibraryView,
    pub reply: ReplyView,
    pub effects: Seq<EffectView>,
    /// The library changed: followers are told, and the origin.
    pub changed: bool,
}

/// What a request did.
#[derive(Debug, Clone)]
pub struct Answer {
    pub reply: Reply,
    pub effects: Vec<Effect>,
    pub changed: bool,
}

impl Answer {
    pub open spec fn with(self, server: ControlServer, library: Replica) -> AnswerView {
        AnswerView {
            server: server.deep_view(),
            library: library.deep_view(),
            reply: self.reply.deep_view(),
            effects: self.effects.deep_view(),
            changed: self.changed,
        }
    }
}

pub open spec fn window_reply(a: WindowAction) -> ReplyView {
    match a {
        WindowAction::Minimize => done("window_minimized"@, "window minimized"@),
        WindowAction::Maximize => done("window_maximized"@, "window maximize toggled"@),
        WindowAction::Close => done("window_close_requested"@, "closing window"@),
        WindowAction::BeginDrag => done("window_drag_started"@, "window drag started"@),
    }
}

/// What a request to pause asks of the player: each state that it names, in
/// order, or the other state where it names none.
pub open spec fn pause_effects(states: Seq<bool>) -> Seq<EffectView> {
    if states.len() == 0 {
        seq![EffectView::TogglePause]
    } else {
        states.map_values(|s: bool| EffectView::SetPause(s))
    }
}

/// What a control of the round does, where there is a runner.
pub open spec fn round_control(
    c: ControlView,
    v: replica::LibraryView,
    request: PostView,
    now: Seq<char>,
    ids: Seq<Seq<char>>,
) -> AnswerView {
    let still = AnswerView {
        server: c,
        library: v,
        reply: outcome_reply(None),
        effects: Seq::empty(),
        changed: false,
    };
    match c.runner {
        Some(r) => match request {
            PostView::Skip => AnswerView {
                library: runner::skipped(r, v, now, ids),
                reply: outcome_reply(Some(runner::skip_outcome(r))),
                effects: runner::skip_effects(r),
                ..still
            },
            PostView::Previous => AnswerView {
                reply: outcome_reply(
                    Some(
                        match r.selected() {
                            Some(_) => runner::OutcomeView {
                                ok: true,
                                status: "previous"@,
                                message: "stepped back"@,
                            },
                            None => runner::nothing_selected(),
                        },
                    ),
                ),
                effects: match r.selected() {
                    Some(_) => seq![EffectView::Previous],
                    None => Seq::empty(),
                },
                ..still
            },
            PostView::Defer => AnswerView {
                server: if runner::can_be_deferred(r, v) {
                    ControlView {
                        runner: Some(
                            RunnerView {
                                deferred: runner::with_deferred(
                                    r.deferred,
                                    r.selected()->0.episode_id,
                                ),
                                ..r
                            },
                        ),
                        ..c
                    }
                } else {
                    c
                },
                library: runner::deferred_in(r, v, now),
                reply: outcome_reply(Some(runner::defer_outcome(r, v))),
                effects: if runner::can_be_deferred(r, v) {
                    seq![EffectView::RequestPush, EffectView::Skip]
                } else {
                    Seq::empty()
                },
                ..still
            },
            PostView::PlayShow(id) => AnswerView {
                server: match runner::place_of_show(runner::shown_rows(r, v), id) {
                    Some(i) => ControlView { runner: Some(RunnerView { pos: i, ..r }), ..c },
                    None => c,
                },
                library: runner::show_selected(r, v, id, now),
                reply: outcome_reply(Some(runner::selection_outcome(r, v, id))),
                effects: match runner::place_of_show(runner::shown_rows(r, v), id) {
                    Some(i) => seq![EffectView::SetPlaylistPos(i), EffectView::RequestPush],
                    None => Seq::empty(),
                },
                ..still
            },
            PostView::Sub(sid) => AnswerView {
                library: runner::track_set(r, v, Track::Subtitle, sid, now),
                reply: outcome_reply(Some(runner::track_outcome(r, Track::Subtitle))),
                effects: seq![EffectView::SetSub(sid)],
                ..still
            },
            PostView::Audio(Some(aid)) => AnswerView {
                library: runner::track_set(r, v, Track::Audio, aid, now),
                reply: outcome_reply(Some(runner::track_outcome(r, Track::Audio))),
                effects: seq![EffectView::SetAudio(aid)],
                ..still
            },
            PostView::ReloadRound => AnswerView {
                reply: outcome_reply(
                    Some(
                        runner::OutcomeView {
                            ok: true,
                            status: "round_reload_requested"@,
                            message: "reloading round"@,
                        },
                    ),
                ),
                effects: seq![EffectView::ClearPlaylist],
                ..still
            },
            _ => still,
        },
        None => match request {
            PostView::Sub(sid) => AnswerView {
                reply: done("subtitle_updated"@, "subtitle track updated"@),
                effects: seq![EffectView::SetSub(sid)],
                ..still
            },
            PostView::Audio(Some(aid)) => AnswerView {
                reply: done("audio_updated"@, "audio track updated"@),
                effects: seq![EffectView::SetAudio(aid)],
                ..still
            },
            _ => still,
        },
    }
}

/// What a request to the library does.
pub open spec fn library_control(
    c: ControlView,
    v: replica::LibraryView,
    request: PostView,
    now: Seq<char>,
    ids: Seq<Seq<char>>,
) -> AnswerView {
    let still = AnswerView {
        server: c,
        library: v,
        reply: done(Seq::empty(), Seq::empty()),
        effects: Seq::empty(),
        changed: false,
    };
    match request {
        PostView::MarkWatched(id) => AnswerView {
            library: library::show_watched(v, id, now, ids),
            reply: done("show_marked_watched"@, "show marked watched"@),
            changed: true,
            ..still
        },
        PostView::MarkUnwatched(id) => AnswerView {
            library: library::show_unwatched(v, id, now),
            reply: done("show_marked_unwatched"@, "show marked unwatched"@),
            changed: true,
            ..still
        },
        PostView::Remove(id) => if tables::place::<ShowRow>(v.shows, id) is Some {
            AnswerView {
                library: replica::retired(v, id, Some(now), now),
                reply: done("show_removed"@, "show removed"@),
                changed: true,
                ..still
            }
        } else {
            AnswerView {
                library: replica::retired(v, id, Some(now), now),
                reply: show_not_found(id),
                ..still
            }
        },
        PostView::Update { show_id, name, root_path, playlist } => AnswerView {
            library: library::show_edited(v, show_id, name, root_path, playlist, now),
            reply: done("show_updated"@, "show updated"@),
            changed: true,
            ..still
        },
        PostView::RemoveEntry(id) => match queue::entry_of(v, id) {
            Some((_, playlist)) => AnswerView {
                library: queue::entry_removed(v, id, now),
                reply: done(
                    "round_entry_removed"@,
                    "removed one "@ + playlist + " round entry; reload the round to apply it"@,
                ),
                changed: true,
                ..still
            },
            None => AnswerView {
                reply: refused(
                    404,
                    "round_entry_not_found"@,
                    "episode "@ + id + " is not in the current round"@,
                ),
                ..still
            },
        },
        _ => still,
    }
}

/// What a request does that needs nothing from outside. Of the others nothing is
/// done here.
pub open spec fn answered(
    c: ControlView,
    v: replica::LibraryView,
    request: PostView,
    now: Seq<char>,
    ids: Seq<Seq<char>>,
) -> AnswerView {
    let still = AnswerView {
        server: c,
        library: v,
        reply: ReplyView { code: 404, body: json::empty_record() },
        effects: Seq::empty(),
        changed: false,
    };
    match request {
        PostView::Pause(states) => AnswerView {
            reply: done(
                "pause_updated"@,
                if states.len() > 0 {
                    "pause state updated"@
                } else {
                    "pause toggled"@
                },
            ),
            effects: pause_effects(states),
            ..still
        },
        PostView::Fullscreen => AnswerView {
            reply: done("fullscreen_toggled"@, "fullscreen toggled"@),
            effects: seq![EffectView::ToggleFullscreen],
            ..still
        },
        PostView::StayOnTop(on_top) => AnswerView {
            reply: done("stay_on_top_set"@, "stay on top set"@),
            effects: match on_top {
                Some(b) => seq![EffectView::SetOnTop(b)],
                None => Seq::empty(),
            },
            ..still
        },
        PostView::Window(a) => AnswerView {
            reply: window_reply(a),
            effects: seq![EffectView::Window(a)],
            ..still
        },
        PostView::Seek(_) => AnswerView {
            reply: done("seek_updated"@, "seek updated"@),
            ..still
        },
        PostView::Volume(_) => AnswerView {
            reply: done("volume_updated"@, "volume updated"@),
            ..still
        },
        PostView::Audio(None) => AnswerView {
            reply: done("audio_updated"@, "audio track updated"@),
            ..still
        },
        PostView::MissingShowId => AnswerView {
            reply: refused(400, "missing_show_id"@, "show_id is required"@),
            ..still
        },
        PostView::MissingEpisodeId => AnswerView {
            reply: refused(400, "missing_episode_id"@, "episode_id is required"@),
            ..still
        },
        PostView::Skip => round_control(c, v, request, now, ids),
        PostView::Previous => round_control(c, v, request, now, ids),
        PostView::Defer => round_control(c, v, request, now, ids),
        PostView::Sub(_) => round_control(c, v, request, now, ids),
        PostView::Audio(Some(_)) => round_control(c, v, request, now, ids),
        PostView::ReloadRound => {
            let fetching = ControlView {
                status: json::merged(
                    c.status,
                    status::phase_record(StatusPhase::Fetching, "reloading repaired round"@),
                ),
                ..c
            };
            round_control(fetching, v, request, now, ids)
        },
        PostView::PlayShow(id) => match replica::show_of(v, id) {
            Some(_) => round_control(c, v, request, now, ids),
            None => AnswerView { reply: show_not_found(id), ..still },
        },
        PostView::MarkWatched(_) => library_control(c, v, request, now, ids),
        PostView::MarkUnwatched(_) => library_control(c, v, request, now, ids),
        PostView::Remove(_) => library_control(c, v, request, now, ids),
        PostView::Update { .. } => library_control(c, v, request, now, ids),
        PostView::RemoveEntry(_) => library_control(c, v, request, now, ids),
        _ => still,
    }
}

/// Whether a request can be carried out as it stands: a defer needs a position
/// behind all others of the show.
pub open spec fn has_room(c: ControlView, v: replica::LibraryView, request: PostView) -> bool {
    request is Defer ==> match c.runner {
        Some(r) => match r.selected() {
            Some(e) => replica::has_room_behind(v, e.show_id),
            None => true,
        },
        None => true,
    }
}

fn plain(reply: Reply) -> (r: Answer)
    ensures
        forall|c: ControlServer, v: Replica| #[trigger]
            r.with(c, v) == (AnswerView {
                server: c.deep_view(),
                library: v.deep_view(),
                reply: reply.deep_view(),
                effects: Seq::empty(),
                changed: false,
            }),
{
    let effects: Vec<Effect> = Vec::new();
    assert(effects.deep_view() =~= Seq::empty());
    Answer { reply, effects, changed: false }
}

/// An answer with one thing to do besides.
fn acting(reply: Reply, e: Effect) -> (r: Answer)
    ensures
        forall|c: ControlServer, v: Replica| #[trigger]
            r.with(c, v) == (AnswerView {
                server: c.deep_view(),
                library: v.deep_view(),
                reply: reply.deep_view(),
                effects: seq![e.deep_view()],
                changed: false,
            }),
{
    let mut effects: Vec<Effect> = Vec::new();
    runner::emit(&mut effects, e);
    assert(effects.deep_view() =~= seq![e.deep_view()]);
    Answer { reply, effects, changed: false }
}

fn pausing(states: &Vec<bool>) -> (r: Vec<Effect>)
    ensures
        r.deep_view() == pause_effects(states.deep_view()),
{
    let mut effects: Vec<Effect> = Vec::new();
    assert(effects.deep_view() =~= Seq::empty());
    if states.len() == 0 {
        runner::emit(&mut effects, Effect::TogglePause);
        assert(effects.deep_view() =~= pause_effects(states.deep_view()));
        return effects;
    }
    let ghost want = pause_effects(states.deep_view());
    let mut i: usize = 0;
    while i < states.len()
        invariant
            i <= states@.len(),
            states@.len() > 0,
            want == pause_effects(states.deep_view()),
            effects.deep_view() =~= want.take(i as int),
        decreases states.len() - i,
    {
        runner::emit(&mut effects, Effect::SetPause(states[i]));
        assert(states.deep_view()[i as int] == states@[i as int]);
        i = i + 1;
    }
    assert(want.take(i as int) =~= want);
    effects
}

fn window_answer(a: WindowAction) -> (r: Reply)
    ensures
        r.deep_view() == window_reply(a),
{
    match a {
        WindowAction::Minimize => respond_control_ok("window_minimized", "window minimized"),
        WindowAction::Maximize => respond_control_ok("window_maximized", "window maximize toggled"),
        WindowAction::Close => respond_control_ok("window_close_requested", "closing window"),
        WindowAction::BeginDrag => respond_control_ok("window_drag_started", "window drag started"),
    }
}

fn as_str_option(s: &Option<String>) -> (r: Option<&str>)
    ensures
        r.deep_view() == s.deep_view(),
{
    match s {
        Some(t) => Some(t.as_str()),
        None => None,
    }
}

impl ControlServer {
    /// A server with no runner yet.
    pub fn new(playlists: Vec<String>) -> (r: ControlServer)
        ensures
            r.deep_view() == (ControlView {
                playlists: playlists.deep_view(),
                status: status::initial_record(playlists.deep_view()),
                frames: 0,
                runner: None,
            }),
    {
        let status = Status::new(playlists.as_slice());
        ControlServer { playlists, status, runner: None }
    }

    pub fn set_runner(&mut self, r: Runner)
        ensures
            final(self).deep_view() == (ControlView {
                runner: Some(r.deep_view()),
                ..old(self).deep_view()
            }),
    {
        self.runner = Some(r);
    }

    fn on_round(&mut self, library: &mut Replica, request: &PostRequest, now: &str, ids: &[String]) -> (r:
        Answer)
        requires
            ids@.len() >= 1,
            has_room(old(self).deep_view(), old(library).deep_view(), request.deep_view()),
        ensures
            r.with(*final(self), *final(library)) == round_control(
                old(self).deep_view(),
                old(library).deep_view(),
                request.deep_view(),
                now@,
                ids.deep_view(),
            ),
    {
        let ghost c = self.deep_view();
        let ghost v = library.deep_view();
        match &mut self.runner {
            Some(r) => {
                let (outcome, effects) = match request {
                    PostRequest::Skip => r.skip_at(library, now, ids),
                    PostRequest::Previous => r.previous(),
                    PostRequest::Defer => r.defer_at(library, now),
                    PostRequest::PlayShow(id) => r.play_show_at(library, id.as_str(), now),
                    PostRequest::Sub(sid) => r.set_current_subtitle_track_at(
                        library,
                        sid.as_str(),
                        now,
                    ),
                    PostRequest::Audio(Some(aid)) => r.set_current_audio_track_at(
                        library,
                        aid.as_str(),
                        now,
                    ),
                    PostRequest::ReloadRound => r.reload_round(),
                    _ => {
                        return plain(no_runner());
                    },
                };
                Answer { reply: respond_control_outcome(&outcome), effects, changed: false }
            },
            None => {
                let mut effects: Vec<Effect> = Vec::new();
                assert(effects.deep_view() =~= Seq::empty());
                match request {
                    PostRequest::Sub(sid) => {
                        runner::emit(&mut effects, Effect::SetSub(sid.clone()));
                        assert(effects.deep_view() =~= seq![EffectView::SetSub(sid@)]);
                        let reply = respond_control_ok(
                            "subtitle_updated",
                            "subtitle track updated",
                        );
                        Answer { reply, effects, changed: false }
                    },
                    PostRequest::Audio(Some(aid)) => {
                        runner::emit(&mut effects, Effect::SetAudio(aid.clone()));
                        assert(effects.deep_view() =~= seq![EffectView::SetAudio(aid@)]);
                        let reply = respond_control_ok("audio_updated", "audio track updated");
                        Answer { reply, effects, changed: false }
                    },
                    _ => plain(no_runner()),
                }
            },
        }
    }

    fn on_library(&self, library: &mut Replica, request: &PostRequest, now: &str, ids: &[String]) -> (r:
        Answer)
        requires
            request.deep_view() is MarkWatched || request.deep_view() is MarkUnwatched
                || request.deep_view() is Remove || request.deep_view() is Update
                || request.deep_view() is RemoveEntry,
            old(library).episodes@.len() <= ids@.len(),
        ensures
            r.with(*self, *final(library)) == library_control(
                self.deep_view(),
                old(library).deep_view(),
                request.deep_view(),
                now@,
                ids.deep_view(),
            ),
    {
        let effects: Vec<Effect> = Vec::new();
        assert(effects.deep_view() =~= Seq::empty());
        match request {
            PostRequest::MarkWatched(id) => {
                library.mark_show_watched_at(id.as_str(), now, ids);
                let reply = respond_control_ok("show_marked_watched", "show marked watched");
                Answer { reply, effects, changed: true }
            },
            PostRequest::MarkUnwatched(id) => {
                library.mark_show_unwatched_at(id.as_str(), now);
                let reply = respond_control_ok("show_marked_unwatched", "show marked unwatched");
                Answer { reply, effects, changed: true }
            },
            PostRequest::Remove(id) => {
                if library.remove_show_at(id.as_str(), now) {
                    let reply = respond_control_ok("show_removed", "show removed");
                    Answer { reply, effects, changed: true }
                } else {
                    Answer { reply: no_show(id.as_str()), effects, changed: false }
                }
            },
            PostRequest::Update { show_id, name, root_path, playlist } => {
                library.update_show_at(
                    show_id.as_str(),
                    as_str_option(name),
                    as_str_option(root_path),
                    as_str_option(playlist),
                    now,
                );
                let reply = respond_control_ok("show_updated", "show updated");
                Answer { reply, effects, changed: true }
            },
            PostRequest::RemoveEntry(id) => {
                match library.remove_round_entry_at(id.as_str(), now) {
                    Some((_, playlist)) => {
                        let mut message = "removed one ".to_owned();
                        message.append(playlist.as_str());
                        message.append(" round entry; reload the round to apply it");
                        let reply = respond_control_ok("round_entry_removed", message.as_str());
                        Answer { reply, effects, changed: true }
                    },
                    None => {
                        let mut message = "episode ".to_owned();
                        message.append(id.as_str());
                        message.append(" is not in the current round");
                        let reply = refuse(404, "round_entry_not_found", message.as_str());
                        Answer { reply, effects, changed: false }
                    },
                }
            },
            _ => Answer { reply: respond_control_ok("", ""), effects, changed: false },
        }
    }

    /// Carries out a request that needs nothing from outside, and answers it. The
    /// ids are for the rows of the watch history.
    pub fn handle_post(
        &mut self,
        library: &mut Replica,
        request: &PostRequest,
        now: &str,
        ids: &[String],
    ) -> (r: Answer)
        requires
            ids@.len() >= 1,
            old(library).episodes@.len() <= ids@.len(),
            has_room(old(self).deep_view(), old(library).deep_view(), request.deep_view()),
        ensures
            r.with(*final(self), *final(library)) == answered(
                old(self).deep_view(),
                old(library).deep_view(),
                request.deep_view(),
                now@,
                ids.deep_view(),
            ),
    {
        match request {
            PostRequest::Pause(states) => {
                let message = if states.len() > 0 {
                    "pause state updated"
                } else {
                    "pause toggled"
                };
                let reply = respond_control_ok("pause_updated", message);
                Answer { reply, effects: pausing(states), changed: false }
            },
            PostRequest::Fullscreen => acting(
                respond_control_ok("fullscreen_toggled", "fullscreen toggled"),
                Effect::ToggleFullscreen,
            ),
            PostRequest::StayOnTop(on_top) => {
                let reply = respond_control_ok("stay_on_top_set", "stay on top set");
                match on_top {
                    Some(b) => acting(reply, Effect::SetOnTop(*b)),
                    None => plain(reply),
                }
            },
            PostRequest::Window(a) => acting(window_answer(*a), Effect::Window(*a)),
            PostRequest::Seek(_) => plain(respond_control_ok("seek_updated", "seek updated")),
            PostRequest::Volume(_) => plain(
                respond_control_ok("volume_updated", "volume updated"),
            ),
            PostRequest::Audio(None) => plain(
                respond_control_ok("audio_updated", "audio track updated"),
            ),
            PostRequest::MissingShowId => plain(
                refuse(400, "missing_show_id", "show_id is required"),
            ),
            PostRequest::MissingEpisodeId => plain(
                refuse(400, "missing_episode_id", "episode_id is required"),
            ),
            PostRequest::Skip => self.on_round(library, request, now, ids),
            PostRequest::Previous => self.on_round(library, request, now, ids),
            PostRequest::Defer => self.on_round(library, request, now, ids),
            PostRequest::Sub(_) => self.on_round(library, request, now, ids),
            PostRequest::Audio(Some(_)) => self.on_round(library, request, now, ids),
            PostRequest::ReloadRound => {
                self.status.push_status(
                    StatusPatch::phase(StatusPhase::Fetching, "reloading repaired round"),
                );
                self.on_round(library, request, now, ids)
            },
            PostRequest::PlayShow(id) => match library.show(id.as_str()) {
                Some(_) => self.on_round(library, request, now, ids),
                None => plain(no_show(id.as_str())),
            },
            PostRequest::MarkWatched(_) => self.on_library(library, request, now, ids),
            PostRequest::MarkUnwatched(_) => self.on_library(library, request, now, ids),
            PostRequest::Remove(_) => self.on_library(library, request, now, ids),
            PostRequest::Update { .. } => self.on_library(library, request, now, ids),
            PostRequest::RemoveEntry(_) => self.on_library(library, request, now, ids),
            _ => plain(Reply { code: 404, body: json::record() }),
        }
    }

    /// Whether a request can be carried out as it stands.
    pub fn can_handle(&self, library: &Replica, request: &PostRequest) -> (r: bool)
        ensures
            r == has_room(self.deep_view(), library.deep_view(), request.deep_view()),
    {
        match request {
            PostRequest::Defer => match &self.runner {
                Some(r) => r.has_room_behind(library),
                None => true,
            },
            _ => true,
        }
    }
}

/// The answer to a request to sync: `None` says that there is nothing to sync
/// with.
pub fn sync_now(synced: Option<bool>) -> (r: Reply)
    ensures
        r.deep_view() == match synced {
            Some(ok) => ReplyView {
                code: if ok {
                    200
                } else {
                    503
                },
                body: control_record(
                    ok,
                    if ok {
                        "synced"@
                    } else {
                        "sync_failed"@
                    },
                    if ok {
                        "sync complete"@
                    } else {
                        "sync failed; check the status panel"@
                    },
                ),
            },
            None => refused(503, "sync_unavailable"@, "sync is not ready"@),
        },
{
    match synced {
        Some(ok) => if ok {
            Reply { code: 200, body: control_json(true, "synced", "sync complete") }
        } else {
            refuse(503, "sync_failed", "sync failed; check the status panel")
        },
        None => refuse(503, "sync_unavailable", "sync is not ready"),
    }
}

// ── laws ────────────────────────────────────────────────────────────────

/// Asking for the same pin twice asks for the same thing: the window is told the
/// state that is wanted, whatever was asked before.
pub proof fn law_pin_is_set_not_toggled(
    c: ControlView,
    v: replica::LibraryView,
    on_top: bool,
    now: Seq<char>,
    ids: Seq<Seq<char>>,
)
    ensures
        answered(c, v, PostView::StayOnTop(Some(on_top)), now, ids).server == c,
        answered(c, v, PostView::StayOnTop(Some(on_top)), now, ids).library == v,
        answered(c, v, PostView::StayOnTop(Some(on_top)), now, ids).effects == seq![
            EffectView::SetOnTop(on_top),
        ],
{
}

/// A request that is refused changes nothing in the library.
pub proof fn law_refused_request_changes_nothing(
    c: ControlView,
    v: replica::LibraryView,
    request: PostView,
    now: Seq<char>,
    ids: Seq<Seq<char>>,
)
    ensures
        answered(c, v, request, now, ids).reply.code >= 400 ==> answered(
            c,
            v,
            request,
            now,
            ids,
        ).library == v,
{
    let a = answered(c, v, request, now, ids);
    match request {
        PostView::Remove(id) => {
            tables::lemma_hits_bound::<ShowRow>(v.shows, id);
            tables::lemma_place::<ShowRow>(v.shows, id);
            if tables::place::<ShowRow>(v.shows, id) is None {
                assert(a.library.shows =~= v.shows);
                assert(a.library =~= v);
            }
        },
        _ => {},
    }
}

/// Taking an entry out of the stored round does not touch the round that is on:
/// only a reload does.
pub proof fn law_repair_leaves_the_round_on(
    c: ControlView,
    v: replica::LibraryView,
    episode_id: Seq<char>,
    now: Seq<char>,
    ids: Seq<Seq<char>>,
)
    ensures
        answered(c, v, PostView::RemoveEntry(episode_id), now, ids).server == c,
        answered(c, v, PostView::RemoveEntry(episode_id), now, ids).effects.len() == 0,
{
}

} // verus!
