//! What the player's events mean, and what is told of its playback.

use serde_json::Value;
use vstd::prelude::*;

use crate::json;
use crate::json::JsonView;
use crate::runner::{PlayerShutdown, RoundEndTracker};
use crate::text;

verus! {

/// An event of the player.
#[derive(Debug, Clone)]
pub enum PlayerEvent {
    Shutdown,
    /// A file ended, for a reason where one was given.
    EndFile { reason: Option<i32> },
    FileLoaded,
    /// A property changed, to a text where it has one.
    Property { name: String, value: Option<String> },
    Other,
}

/// What an event asks for.
#[derive(Debug, Clone, Copy, PartialEq, Eq, Structural)]
pub enum PlayerCall {
    /// Wake who waits for the end of the round.
    Wake,
    NaturalEnd,
    FileLoaded,
    PlaybackChanged,
    /// The place in the playlist.
    Position(usize),
    /// No more events come.
    Stop,
}

/// The reason of a file that played to its end.
pub const END_OF_FILE: i32 = 0;

/// The properties whose change shows in the overlay.
pub open spec fn shown_properties() -> Seq<Seq<char>> {
    seq![
        "time-pos"@,
        "duration"@,
        "percent-pos"@,
        "volume"@,
        "pause"@,
        "sid"@,
        "aid"@,
        "track-list/count"@,
    ]
}

fn push_name(names: &mut Vec<String>, name: &str)
    ensures
        final(names).deep_view() == old(names).deep_view().push(name@),
{
    let ghost before = names.deep_view();
    names.push(name.to_string());
    assert(names.deep_view() =~= before.push(name@));
}

/// The properties to observe beside the place in the playlist.
pub fn observed_properties() -> (r: Vec<String>)
    ensures
        r.deep_view() == shown_properties(),
{
    let mut names: Vec<String> = Vec::new();
    assert(names.deep_view() =~= Seq::empty());
    push_name(&mut names, "time-pos");
    push_name(&mut names, "duration");
    push_name(&mut names, "percent-pos");
    push_name(&mut names, "volume");
    push_name(&mut names, "pause");
    push_name(&mut names, "sid");
    push_name(&mut names, "aid");
    push_name(&mut names, "track-list/count");
    assert(names.deep_view() =~= shown_properties());
    names
}

/// The place in the playlist that a property tells, if it tells one.
pub open spec fn place_in(name: Seq<char>, value: Option<Seq<char>>) -> Option<int> {
    if name == "playlist-pos"@ && value is Some {
        text::number_in(value->0)
    } else {
        None
    }
}

pub open spec fn place_of(event: PlayerEvent) -> Option<int> {
    match event {
        PlayerEvent::Property { name, value } => place_in(name@, value.deep_view()),
        _ => None,
    }
}

pub open spec fn is_shown(event: PlayerEvent) -> bool {
    match event {
        PlayerEvent::Property { name, .. } => shown_properties().contains(name@),
        _ => false,
    }
}

/// What an event asks for, while a round plays or not.
pub open spec fn calls_of(event: PlayerEvent, active: bool) -> Seq<PlayerCall> {
    match event {
        PlayerEvent::Shutdown => seq![PlayerCall::Wake, PlayerCall::Stop],
        PlayerEvent::EndFile { reason } => if reason == Some(END_OF_FILE) {
            seq![PlayerCall::NaturalEnd]
        } else {
            seq![]
        },
        PlayerEvent::FileLoaded => seq![PlayerCall::FileLoaded, PlayerCall::PlaybackChanged],
        PlayerEvent::Property { .. } => {
            let place = match place_of(event) {
                Some(i) => if i >= 0 {
                    seq![PlayerCall::Position(i as usize)]
                } else if active {
                    seq![PlayerCall::Wake]
                } else {
                    seq![]
                },
                None => seq![],
            };
            if is_shown(event) {
                place.push(PlayerCall::PlaybackChanged)
            } else {
                place
            }
        },
        PlayerEvent::Other => seq![],
    }
}

/// How the player stands.
#[derive(Debug, Clone)]
pub struct Playback {
    pub round: RoundEndTracker,
    pub shutdown: bool,
    pub interrupted: bool,
}

impl Playback {
    pub fn new() -> (r: Playback)
        ensures
            !r.round.is_active(),
            r.round.count() == 0,
            !r.shutdown,
            !r.interrupted,
    {
        Playback { round: RoundEndTracker::default(), shutdown: false, interrupted: false }
    }

    /// Takes an event, and says what to call, in order. Only a natural end counts
    /// as watched; a round ends by its place in the playlist.
    pub fn take(&mut self, event: &PlayerEvent) -> (r: Vec<PlayerCall>)
        requires
            old(self).round.count() < u64::MAX,
        ensures
            r@ == calls_of(*event, old(self).round.is_active()),
            final(self).shutdown == (old(self).shutdown || *event is Shutdown),
            final(self).interrupted == old(self).interrupted,
            final(self).round.is_active() == match place_of(*event) {
                Some(i) => i >= 0,
                None => old(self).round.is_active(),
            },
            final(self).round.count() == old(self).round.count() + match place_of(*event) {
                Some(i) => if i < 0 && old(self).round.is_active() {
                    1int
                } else {
                    0int
                },
                None => 0int,
            },
    {
        let mut calls: Vec<PlayerCall> = Vec::new();
        match event {
            PlayerEvent::Shutdown => {
                self.shutdown = true;
                calls.push(PlayerCall::Wake);
                calls.push(PlayerCall::Stop);
            },
            PlayerEvent::EndFile { reason } => {
                if let Some(n) = reason {
                    if *n == END_OF_FILE {
                        calls.push(PlayerCall::NaturalEnd);
                    }
                }
            },
            PlayerEvent::FileLoaded => {
                calls.push(PlayerCall::FileLoaded);
                calls.push(PlayerCall::PlaybackChanged);
            },
            PlayerEvent::Property { name, value } => {
                if let Some(v) = value {
                    if text::same_text(name.as_str(), "playlist-pos") {
                        if let Some(i) = text::read_number(v.as_str()) {
                            if self.round.observe(i) {
                                calls.push(PlayerCall::Wake);
                            }
                            if i >= 0 {
                                calls.push(PlayerCall::Position(i as usize));
                            }
                        }
                    }
                }
                let shown = observed_properties();
                if text::is_among(name.as_str(), shown.as_slice()) {
                    calls.push(PlayerCall::PlaybackChanged);
                }
            },
            PlayerEvent::Other => {},
        }
        assert(calls@ =~= calls_of(*event, old(self).round.is_active()));
        calls
    }

    /// The playlist is cleared: who waits for the end of the round is to stop.
    pub fn interrupt(&mut self)
        ensures
            *final(self) == (Playback { interrupted: true, ..*old(self) }),
    {
        self.interrupted = true;
    }

    /// Begins to wait for the end of the round that plays; gives back the count of
    /// ended rounds at which the wait is over.
    pub fn begin_wait(&mut self) -> (r: u64)
        requires
            old(self).round.count() < u64::MAX,
        ensures
            r == old(self).round.count() + 1,
            *final(self) == (Playback { interrupted: false, ..*old(self) }),
    {
        self.interrupted = false;
        self.round.ended_count() + 1
    }

    /// How a wait stands: over once the round ended, given up once the player shut
    /// down, the runner stopped or the playlist was cleared, in that order; else
    /// it goes on.
    pub fn wait_for_round_end(&self, target: u64, stopped: bool) -> (r: Option<
        Result<(), PlayerShutdown>,
    >)
        ensures
            match r {
                Some(Ok(_)) => self.round.count() >= target,
                Some(Err(e)) => self.round.count() < target && reason_to_stop(
                    self.shutdown,
                    stopped,
                    self.interrupted,
                ) == Some(e.0@),
                None => self.round.count() < target && reason_to_stop(
                    self.shutdown,
                    stopped,
                    self.interrupted,
                ) is None,
            },
    {
        if self.round.ended_count() >= target {
            return Some(Ok(()));
        }
        if self.shutdown {
            return Some(Err(PlayerShutdown("mpv shutdown event".to_string())));
        }
        if stopped {
            return Some(Err(PlayerShutdown("runner stopped".to_string())));
        }
        if self.interrupted {
            return Some(Err(PlayerShutdown("interrupted".to_string())));
        }
        None
    }
}

/// Why a wait is given up.
pub open spec fn reason_to_stop(shutdown: bool, stopped: bool, interrupted: bool) -> Option<
    Seq<char>,
> {
    if shutdown {
        Some("mpv shutdown event"@)
    } else if stopped {
        Some("runner stopped"@)
    } else if interrupted {
        Some("interrupted"@)
    } else {
        None
    }
}

// ── tracks ──────────────────────────────────────────────────────────────

/// What the player tells of a track, as far as it does.
#[derive(Debug, Clone)]
pub struct TrackProperties {
    pub kind: Option<String>,
    pub id: Option<String>,
    pub title: Option<String>,
    pub lang: Option<String>,
    pub selected: Option<String>,
}

#[verifier::ext_equal]
pub struct TrackView {
    pub kind: Option<Seq<char>>,
    pub id: Option<Seq<char>>,
    pub title: Option<Seq<char>>,
    pub lang: Option<Seq<char>>,
    pub selected: Option<Seq<char>>,
}

impl DeepView for TrackProperties {
    type V = TrackView;

    open spec fn deep_view(&self) -> TrackView {
        TrackView {
            kind: self.kind.deep_view(),
            id: self.id.deep_view(),
            title: self.title.deep_view(),
            lang: self.lang.deep_view(),
            selected: self.selected.deep_view(),
        }
    }
}

/// How many tracks there are: none where the player does not say.
pub fn track_count(told: Option<&str>) -> (r: i64)
    ensures
        r == match told.deep_view() {
            Some(t) => match text::number_in(t) {
                Some(n) => n,
                None => 0int,
            },
            None => 0int,
        },
{
    match told {
        Some(t) => match text::read_number(t) {
            Some(n) => n,
            None => 0,
        },
        None => 0,
    }
}

pub open spec fn says_yes(told: Option<Seq<char>>) -> bool {
    told == Some("yes"@)
}

fn is_yes(told: &Option<String>) -> (r: bool)
    ensures
        r == says_yes(told.deep_view()),
{
    match told {
        Some(t) => text::same_text(t.as_str(), "yes"),
        None => false,
    }
}

pub open spec fn track_id(t: TrackView) -> Seq<char> {
    match t.id {
        Some(id) => id,
        None => seq![],
    }
}

/// A track is named by its title, else by its language, else by its kind and
/// number.
pub open spec fn track_title(kind: Seq<char>, t: TrackView) -> Seq<char> {
    match (t.title, t.lang) {
        (Some(title), _) => title,
        (None, Some(lang)) => lang,
        (None, None) => kind + " "@ + track_id(t),
    }
}

pub open spec fn track_record(kind: Seq<char>, t: TrackView) -> JsonView {
    let id = match text::number_in(track_id(t)) {
        Some(n) => JsonView::Int(n),
        None => JsonView::Null,
    };
    let r = json::empty_record();
    let r = json::with_field(r, "id"@, id);
    let r = json::with_field(r, "title"@, JsonView::Text(track_title(kind, t)));
    let r = json::with_field(r, "lang"@, json::option_text(t.lang));
    json::with_field(r, "selected"@, JsonView::Bool(says_yes(t.selected)))
}

/// What is told of the tracks of a kind, in their order.
pub open spec fn tracks_told(kind: Seq<char>, tracks: Seq<TrackView>) -> Seq<JsonView>
    decreases tracks.len(),
{
    if tracks.len() == 0 {
        seq![]
    } else {
        let before = tracks_told(kind, tracks.drop_last());
        if tracks.last().kind == Some(kind) {
            before.push(track_record(kind, tracks.last()))
        } else {
            before
        }
    }
}

fn tell_track(kind: &str, t: &TrackProperties) -> (r: Value)
    ensures
        json::json_view(r) == track_record(kind@, t.deep_view()),
{
    let id: &str = match &t.id {
        Some(id) => id.as_str(),
        None => "",
    };
    proof {
        reveal_strlit("");
        assert(""@ =~= Seq::<char>::empty());
    }
    let number = match text::read_number(id) {
        Some(n) => json::integer(n),
        None => json::null(),
    };
    let title = match (&t.title, &t.lang) {
        (Some(title), _) => json::text(title.as_str()),
        (None, Some(lang)) => json::text(lang.as_str()),
        (None, None) => {
            let mut s = kind.to_string();
            s.append(" ");
            s.append(id);
            json::text(s.as_str())
        },
    };
    let selected = is_yes(&t.selected);
    let mut r = json::record();
    json::put(&mut r, "id", number);
    json::put(&mut r, "title", title);
    json::put(&mut r, "lang", json::maybe_text(&t.lang));
    json::put(&mut r, "selected", json::boolean(selected));
    r
}

/// Tells of the tracks of a kind.
pub fn tracks(kind: &str, all: &[TrackProperties]) -> (r: Vec<Value>)
    ensures
        json::views(r@) == tracks_told(kind@, all.deep_view()),
{
    let ghost views = all.deep_view();
    let mut out: Vec<Value> = Vec::new();
    let mut i: usize = 0;
    assert(json::views(out@) =~= tracks_told(kind@, views.take(0)));
    while i < all.len()
        invariant
            i <= all@.len(),
            views == all.deep_view(),
            json::views(out@) == tracks_told(kind@, views.take(i as int)),
        decreases all.len() - i,
    {
        let ghost before = json::views(out@);
        assert(views[i as int] == all@[i as int].deep_view());
        assert(views.take(i + 1).drop_last() =~= views.take(i as int));
        assert(views.take(i + 1).last() == views[i as int]);
        if let Some(k) = &all[i].kind {
            if text::same_text(k.as_str(), kind) {
                let told = tell_track(kind, &all[i]);
                out.push(told);
                assert(json::views(out@) =~= before.push(json::json_view(told)));
            }
        }
        i = i + 1;
    }
    assert(views.take(i as int) =~= views);
    out
}

/// The figures of the playback, each a number or nothing.
pub struct Figures {
    pub time_pos: Value,
    pub duration: Value,
    pub percent_pos: Value,
    pub volume: Value,
}

/// What the player says of its standing still, as far as it does.
#[derive(Debug, Clone)]
pub struct Stillness {
    pub pause: Option<String>,
    pub core_idle: Option<String>,
    pub paused_for_cache: Option<String>,
}

pub open spec fn playback_record(
    figures: Figures,
    still: Stillness,
    tracks: Seq<TrackView>,
    sid: Option<Seq<char>>,
    aid: Option<Seq<char>>,
) -> JsonView {
    let r = json::empty_record();
    let r = json::with_field(r, "time_pos"@, json::json_view(figures.time_pos));
    let r = json::with_field(r, "duration"@, json::json_view(figures.duration));
    let r = json::with_field(r, "percent_pos"@, json::json_view(figures.percent_pos));
    let r = json::with_field(r, "volume"@, json::json_view(figures.volume));
    let r = json::with_field(r, "paused"@, JsonView::Bool(says_yes(still.pause.deep_view())));
    let r = json::with_field(
        r,
        "core_idle"@,
        JsonView::Bool(says_yes(still.core_idle.deep_view())),
    );
    let r = json::with_field(
        r,
        "paused_for_cache"@,
        JsonView::Bool(says_yes(still.paused_for_cache.deep_view())),
    );
    let r = json::with_field(r, "sub_tracks"@, JsonView::List(tracks_told("sub"@, tracks)));
    let r = json::with_field(r, "audio_tracks"@, JsonView::List(tracks_told("audio"@, tracks)));
    let r = json::with_field(r, "sid"@, json::option_text(sid));
    json::with_field(r, "aid"@, json::option_text(aid))
}

/// What is told of the playback: for the scrub bar and the track menus.
pub fn playback_state(
    figures: Figures,
    still: &Stillness,
    all: &[TrackProperties],
    sid: &Option<String>,
    aid: &Option<String>,
) -> (r: Value)
    ensures
        json::json_view(r) == playback_record(
            figures,
            *still,
            all.deep_view(),
            sid.deep_view(),
            aid.deep_view(),
        ),
{
    let subs = tracks("sub", all);
    let audios = tracks("audio", all);
    let mut r = json::record();
    json::put(&mut r, "time_pos", figures.time_pos);
    json::put(&mut r, "duration", figures.duration);
    json::put(&mut r, "percent_pos", figures.percent_pos);
    json::put(&mut r, "volume", figures.volume);
    json::put(&mut r, "paused", json::boolean(is_yes(&still.pause)));
    json::put(&mut r, "core_idle", json::boolean(is_yes(&still.core_idle)));
    json::put(&mut r, "paused_for_cache", json::boolean(is_yes(&still.paused_for_cache)));
    json::put(&mut r, "sub_tracks", json::list(subs));
    json::put(&mut r, "audio_tracks", json::list(audios));
    json::put(&mut r, "sid", json::maybe_text(sid));
    json::put(&mut r, "aid", json::maybe_text(aid));
    r
}

/// The size of the video, where the player tells one that is a size.
pub fn video_dimensions(width: Option<i32>, height: Option<i32>) -> (r: Option<(i32, i32)>)
    ensures
        r == match (width, height) {
            (Some(w), Some(h)) => if w > 0 && h > 0 {
                Some((w, h))
            } else {
                None
            },
            _ => None,
        },
{
    match (width, height) {
        (Some(w), Some(h)) => if w > 0 && h > 0 {
            Some((w, h))
        } else {
            None
        },
        _ => None,
    }
}

// ── laws ────────────────────────────────────────────────────────────────

/// A file that did not play to its end counts for nothing.
pub proof fn law_only_a_natural_end_is_told(event: PlayerEvent, active: bool)
    ensures
        calls_of(event, active).contains(PlayerCall::NaturalEnd) == (event
            == PlayerEvent::EndFile { reason: Some(END_OF_FILE) }),
{
    let calls = calls_of(event, active);
    if event == (PlayerEvent::EndFile { reason: Some(END_OF_FILE) }) {
        assert(calls[0] == PlayerCall::NaturalEnd);
    }
}

/// Going back and forth in a round never wakes who waits for its end.
pub proof fn law_moving_in_the_round_wakes_nobody(event: PlayerEvent, active: bool)
    requires
        place_of(event) is Some,
        place_of(event)->0 >= 0,
    ensures
        !calls_of(event, active).contains(PlayerCall::Wake),
{
}

} // verus!
