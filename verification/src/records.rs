//! What the records that go out hold: which value stands under which name.

use vstd::prelude::*;

use crate::apiclient;
use crate::catalog;
use crate::control;
use crate::engine;
use crate::json;
use crate::json::JsonView;
use crate::oauth;
use crate::player;
use crate::shell;
use crate::stats;
use crate::status;
use crate::tables;

verus! {

/// Whether a record holds a text under a name.
pub open spec fn has_text(r: JsonView, key: Seq<char>, value: Seq<char>) -> bool {
    json::field(r, key) == Some(JsonView::Text(value))
}

/// Whether a record holds a number under a name.
pub open spec fn has_number(r: JsonView, key: Seq<char>, value: int) -> bool {
    json::field(r, key) == Some(JsonView::Int(value))
}

/// Whether a record holds a truth value under a name.
pub open spec fn has_truth(r: JsonView, key: Seq<char>, value: bool) -> bool {
    json::field(r, key) == Some(JsonView::Bool(value))
}

/// Whether a record holds a text under a name, or null where there is none.
pub open spec fn has_option(r: JsonView, key: Seq<char>, value: Option<Seq<char>>) -> bool {
    match value {
        Some(t) => has_text(r, key, t),
        None => json::field(r, key) == Some(JsonView::Null),
    }
}

/// A show of the sidebar is told with its id, playlist, name and folder, when it was
/// added and when it was retired.
pub proof fn law_sidebar_fields(s: engine::ShowView)
    ensures
        ({
            let r = stats::sidebar_record(s);
            &&& has_text(r, "id"@, s.id)
            &&& has_text(r, "playlist"@, s.playlist)
            &&& has_text(r, "name"@, s.name)
            &&& has_text(r, "root_path"@, s.root_path)
            &&& has_text(r, "date_added"@, stats::or_empty(s.date_added))
            &&& has_option(r, "removed_at"@, s.removed_at)
        }),
{
    reveal_strlit("id");
    reveal_strlit("playlist");
    reveal_strlit("name");
    reveal_strlit("root_path");
    reveal_strlit("date_added");
    reveal_strlit("removed_at");
    assert("id"@.len() == 2);
    assert("playlist"@.len() == 8);
    assert("name"@.len() == 4);
    assert("root_path"@.len() == 9);
    assert("date_added"@.len() == 10);
    assert("removed_at"@.len() == 10);
    assert("date_added"@[0] != "removed_at"@[0]);
}

/// A play is told with its episode, the path it had and its time.
pub proof fn law_play_fields(h: tables::HistoryEntryView)
    ensures
        ({
            let r = stats::play_record(h);
            &&& has_text(r, "episode_id"@, h.episode_id)
            &&& has_option(r, "relative_path"@, h.relative_path)
            &&& has_text(r, "played_at"@, h.played_at)
        }),
{
    reveal_strlit("episode_id");
    reveal_strlit("relative_path");
    reveal_strlit("played_at");
    assert("episode_id"@.len() == 10);
    assert("relative_path"@.len() == 13);
    assert("played_at"@.len() == 9);
}

/// A finished show is told with its id, its name and its two times.
pub proof fn law_farewell_fields(s: stats::RemovedShowView)
    ensures
        ({
            let r = stats::farewell_record(s);
            &&& has_text(r, "id"@, s.id)
            &&& has_text(r, "name"@, s.name)
            &&& has_text(r, "date_added"@, s.date_added)
            &&& has_text(r, "last_played_at"@, s.last_played_at)
        }),
{
    reveal_strlit("id");
    reveal_strlit("name");
    reveal_strlit("date_added");
    reveal_strlit("last_played_at");
    assert("id"@.len() == 2);
    assert("name"@.len() == 4);
    assert("date_added"@.len() == 10);
    assert("last_played_at"@.len() == 14);
}

/// The progress of a show is told with its name, its playlist and its figures.
pub proof fn law_progress_fields(p: stats::PerShowView)
    ensures
        ({
            let r = stats::per_show_record(p);
            &&& has_text(r, "name"@, p.name)
            &&& has_text(r, "playlist"@, p.playlist)
            &&& has_number(r, "watched"@, p.watched as int)
            &&& has_number(r, "total"@, p.total as int)
            &&& has_truth(r, "removed"@, p.removed)
        }),
{
    reveal_strlit("name");
    reveal_strlit("playlist");
    reveal_strlit("watched");
    reveal_strlit("total");
    reveal_strlit("removed");
    assert("name"@.len() == 4);
    assert("playlist"@.len() == 8);
    assert("watched"@.len() == 7);
    assert("total"@.len() == 5);
    assert("removed"@.len() == 7);
    assert("watched"@[0] != "removed"@[0]);
}

/// A recent play is told with the name of its show, its path and its time.
pub proof fn law_recent_fields(p: stats::RecentView)
    ensures
        ({
            let r = stats::recent_record(p);
            &&& has_text(r, "show"@, p.show)
            &&& has_text(r, "relative_path"@, p.relative_path)
            &&& has_text(r, "played_at"@, p.played_at)
        }),
{
    reveal_strlit("show");
    reveal_strlit("relative_path");
    reveal_strlit("played_at");
    assert("show"@.len() == 4);
    assert("relative_path"@.len() == 13);
    assert("played_at"@.len() == 9);
}

/// An entry of the round is told with its show, its episode, its playlist, its key and
/// its path.
pub proof fn law_round_entry_fields(e: status::StatusRoundEntry)
    ensures
        ({
            let r = status::round_entry_record(e);
            &&& has_text(r, "show_id"@, e.show_id@)
            &&& has_text(r, "show_name"@, e.show_name@)
            &&& has_text(r, "episode_id"@, e.episode_id@)
            &&& has_text(r, "playlist"@, e.playlist@)
            &&& has_number(r, "order_value"@, e.order_value as int)
            &&& has_text(r, "absolute_path"@, e.absolute_path@)
        }),
{
    reveal_strlit("show_id");
    reveal_strlit("show_name");
    reveal_strlit("episode_id");
    reveal_strlit("playlist");
    reveal_strlit("order_value");
    reveal_strlit("absolute_path");
    assert("show_id"@.len() == 7);
    assert("show_name"@.len() == 9);
    assert("episode_id"@.len() == 10);
    assert("playlist"@.len() == 8);
    assert("order_value"@.len() == 11);
    assert("absolute_path"@.len() == 13);
}

/// A finished show is told to the overlay with its id, its name and its two times.
pub proof fn law_removed_show_fields(s: status::StatusRemovedShow)
    ensures
        ({
            let r = status::removed_show_record(s);
            &&& has_text(r, "id"@, s.id@)
            &&& has_text(r, "name"@, s.name@)
            &&& has_text(r, "date_added"@, s.date_added@)
            &&& has_text(r, "last_played_at"@, s.last_played_at@)
        }),
{
    reveal_strlit("id");
    reveal_strlit("name");
    reveal_strlit("date_added");
    reveal_strlit("last_played_at");
    assert("id"@.len() == 2);
    assert("name"@.len() == 4);
    assert("date_added"@.len() == 10);
    assert("last_played_at"@.len() == 14);
}

/// A file that could not be had is told with its episode, its show, both paths and the
/// reason.
pub proof fn law_problem_fields(p: status::StatusFileSyncProblem)
    ensures
        ({
            let r = status::problem_record(p);
            &&& has_text(r, "episode_id"@, p.episode_id@)
            &&& has_text(r, "show_name"@, p.show_name@)
            &&& has_text(r, "source_path"@, p.source_path@)
            &&& has_text(r, "local_path"@, p.local_path@)
            &&& has_text(r, "reason"@, p.reason@)
        }),
{
    reveal_strlit("episode_id");
    reveal_strlit("show_name");
    reveal_strlit("source_path");
    reveal_strlit("local_path");
    reveal_strlit("reason");
    assert("episode_id"@.len() == 10);
    assert("show_name"@.len() == 9);
    assert("source_path"@.len() == 11);
    assert("local_path"@.len() == 10);
    assert("reason"@.len() == 6);
    assert("episode_id"@[0] != "local_path"@[0]);
}

/// What became of the files is told with the four counts, the summary, whether it is
/// incomplete, and the problems.
pub proof fn law_file_sync_fields(f: status::StatusFileSync)
    ensures
        ({
            let r = status::file_sync_record(f);
            &&& has_number(r, "copied"@, f.copied as int)
            &&& has_number(r, "cached"@, f.cached as int)
            &&& has_number(r, "missing"@, f.missing as int)
            &&& has_number(r, "failed"@, f.failed as int)
            &&& has_text(r, "summary"@, f.summary@)
            &&& has_truth(r, "incomplete"@, f.incomplete)
            &&& json::field(r, "problems"@) == Some(
                JsonView::List(
                    f.problems@.map_values(|p: status::StatusFileSyncProblem| status::problem_record(p)),
                ),
            )
        }),
{
    reveal_strlit("copied");
    reveal_strlit("cached");
    reveal_strlit("missing");
    reveal_strlit("failed");
    reveal_strlit("summary");
    reveal_strlit("incomplete");
    reveal_strlit("problems");
    assert("copied"@.len() == 6);
    assert("cached"@.len() == 6);
    assert("missing"@.len() == 7);
    assert("failed"@.len() == 6);
    assert("summary"@.len() == 7);
    assert("incomplete"@.len() == 10);
    assert("problems"@.len() == 8);
    assert("copied"@[1] != "cached"@[1]);
    assert("copied"@[0] != "failed"@[0]);
    assert("cached"@[0] != "failed"@[0]);
    assert("missing"@[0] != "summary"@[0]);
}

/// The state of the window is told in three parts.
pub proof fn law_window_fields(maximized: bool, fullscreen: bool, on_top: bool)
    ensures
        ({
            let r = status::window_record(maximized, fullscreen, on_top);
            &&& has_truth(r, "window_maximized"@, maximized)
            &&& has_truth(r, "window_fullscreen"@, fullscreen)
            &&& has_truth(r, "window_on_top"@, on_top)
        }),
{
    reveal_strlit("window_maximized");
    reveal_strlit("window_fullscreen");
    reveal_strlit("window_on_top");
    assert("window_maximized"@.len() == 16);
    assert("window_fullscreen"@.len() == 17);
    assert("window_on_top"@.len() == 13);
}

/// An alert is told with its level, its title, its message and its detail.
pub proof fn law_alert_fields(
    level: Seq<char>,
    title: Seq<char>,
    message: Seq<char>,
    detail: Seq<char>,
)
    ensures
        ({
            let r = status::alert(level, title, message, detail);
            &&& has_text(r, "level"@, level)
            &&& has_text(r, "title"@, title)
            &&& has_text(r, "message"@, message)
            &&& has_text(r, "detail"@, detail)
        }),
{
    reveal_strlit("level");
    reveal_strlit("title");
    reveal_strlit("message");
    reveal_strlit("detail");
    assert("level"@.len() == 5);
    assert("title"@.len() == 5);
    assert("message"@.len() == 7);
    assert("detail"@.len() == 6);
    assert("level"@[0] != "title"@[0]);
}

/// The database is told with its path and its revision, and that it is what counts.
pub proof fn law_database_fields(path: Seq<char>, revision: i64)
    ensures
        ({
            let r = status::database_record(path, revision);
            &&& has_text(r, "path"@, path)
            &&& has_truth(r, "authoritative"@, true)
            &&& has_number(r, "revision"@, revision as int)
        }),
{
    reveal_strlit("path");
    reveal_strlit("authoritative");
    reveal_strlit("revision");
    assert("path"@.len() == 4);
    assert("authoritative"@.len() == 13);
    assert("revision"@.len() == 8);
}

/// The answer to a control tells whether it was done, its status and its message.
pub proof fn law_control_fields(ok: bool, status: Seq<char>, message: Seq<char>)
    ensures
        ({
            let r = control::control_record(ok, status, message);
            &&& has_truth(r, "ok"@, ok)
            &&& has_text(r, "status"@, status)
            &&& has_text(r, "message"@, message)
        }),
{
    reveal_strlit("ok");
    reveal_strlit("status");
    reveal_strlit("message");
    assert("ok"@.len() == 2);
    assert("status"@.len() == 6);
    assert("message"@.len() == 7);
}

/// A token is stored with its version and when it expires.
pub proof fn law_token_fields(t: oauth::TokenView)
    ensures
        ({
            let r = oauth::token_record(t);
            &&& has_number(r, "version"@, t.version as int)
            &&& has_text(r, "token"@, t.token)
            &&& has_number(r, "expires_at"@, t.expires_at as int)
        }),
{
    reveal_strlit("version");
    reveal_strlit("token");
    reveal_strlit("expires_at");
    assert("version"@.len() == 7);
    assert("token"@.len() == 5);
    assert("expires_at"@.len() == 10);
}

/// A code is exchanged with what proves who asked for it.
pub proof fn law_exchange_fields(
    code: Seq<char>,
    verifier: Seq<char>,
    redirect_uri: Seq<char>,
)
    ensures
        ({
            let r = oauth::exchange_record(code, verifier, redirect_uri);
            &&& has_text(r, "grant_type"@, "authorization_code"@)
            &&& has_text(r, "code"@, code)
            &&& has_text(r, "code_verifier"@, verifier)
            &&& has_text(r, "redirect_uri"@, redirect_uri)
        }),
{
    reveal_strlit("grant_type");
    reveal_strlit("code");
    reveal_strlit("code_verifier");
    reveal_strlit("redirect_uri");
    assert("grant_type"@.len() == 10);
    assert("code"@.len() == 4);
    assert("code_verifier"@.len() == 13);
    assert("redirect_uri"@.len() == 12);
}

/// The origin is sent the shows, the episodes and the history, each under its name.
pub proof fn law_exchanged_fields(
    shows: Seq<JsonView>,
    episodes: Seq<JsonView>,
    history: Seq<JsonView>,
)
    ensures
        ({
            let r = apiclient::sync_record(shows, episodes, history);
            &&& json::field(r, "shows"@) == Some(
                JsonView::List(
                    shows,
                ),
            )
            &&& json::field(r, "episodes"@) == Some(
                JsonView::List(
                    episodes,
                ),
            )
            &&& json::field(r, "history"@) == Some(
                JsonView::List(
                    history,
                ),
            )
        }),
{
    reveal_strlit("shows");
    reveal_strlit("episodes");
    reveal_strlit("history");
    assert("shows"@.len() == 5);
    assert("episodes"@.len() == 8);
    assert("history"@.len() == 7);
}

/// An episode is told with its id, its path, its position, when it was watched and where
/// it was left.
pub proof fn law_episode_fields(e: engine::EpisodeView, resume: JsonView)
    ensures
        ({
            let r = catalog::episode_record(e, resume);
            &&& has_text(r, "id"@, e.id)
            &&& has_text(r, "relative_path"@, e.relative_path)
            &&& has_number(r, "position"@, e.position as int)
            &&& has_option(r, "watched_at"@, e.watched_at)
            &&& json::field(r, "resume_pos"@) == Some(resume)
        }),
{
    reveal_strlit("id");
    reveal_strlit("relative_path");
    reveal_strlit("position");
    reveal_strlit("watched_at");
    reveal_strlit("resume_pos");
    assert("id"@.len() == 2);
    assert("relative_path"@.len() == 13);
    assert("position"@.len() == 8);
    assert("watched_at"@.len() == 10);
    assert("resume_pos"@.len() == 10);
    assert("watched_at"@[0] != "resume_pos"@[0]);
}

/// A show is told with its id, its name, its playlist and its folder.
pub proof fn law_show_fields(s: engine::ShowView)
    ensures
        ({
            let r = catalog::show_record(s);
            &&& has_text(r, "id"@, s.id)
            &&& has_text(r, "name"@, s.name)
            &&& has_text(r, "playlist"@, s.playlist)
            &&& has_text(r, "root_path"@, s.root_path)
        }),
{
    reveal_strlit("id");
    reveal_strlit("name");
    reveal_strlit("playlist");
    reveal_strlit("root_path");
    assert("id"@.len() == 2);
    assert("name"@.len() == 4);
    assert("playlist"@.len() == 8);
    assert("root_path"@.len() == 9);
}

/// A show that was added is told with its id and the number of its episodes.
pub proof fn law_added_fields(id: Seq<char>, episodes: nat)
    ensures
        ({
            let r = catalog::added_record(id, episodes);
            &&& has_text(r, "id"@, id)
            &&& has_number(r, "episodes"@, episodes as int)
        }),
{
    reveal_strlit("id");
    reveal_strlit("episodes");
    assert("id"@.len() == 2);
    assert("episodes"@.len() == 8);
}

/// A drive is told with its letter, its root and that it is a drive.
pub proof fn law_drive_fields(letter: char)
    ensures
        ({
            let r = catalog::drive_record(letter);
            &&& has_text(r, "name"@, seq![letter] + ":"@)
            &&& has_text(r, "path"@, seq![letter] + ":\\"@)
            &&& has_truth(r, "is_drive"@, true)
        }),
{
    reveal_strlit("name");
    reveal_strlit("path");
    reveal_strlit("is_drive");
    assert("name"@.len() == 4);
    assert("path"@.len() == 4);
    assert("is_drive"@.len() == 8);
    assert("name"@[0] != "path"@[0]);
}

/// A folder is told with its name and its path.
pub proof fn law_directory_fields(d: catalog::DirectoryView)
    ensures
        ({
            let r = catalog::directory_record(d);
            &&& has_text(r, "name"@, d.name)
            &&& has_text(r, "path"@, d.path)
        }),
{
    reveal_strlit("name");
    reveal_strlit("path");
    assert("name"@.len() == 4);
    assert("path"@.len() == 4);
    assert("name"@[0] != "path"@[0]);
}

/// What plays is told with its figures, what holds it up, its tracks and the two that
/// are chosen.
pub proof fn law_playback_fields(
    figures: player::Figures,
    still: player::Stillness,
    tracks: Seq<player::TrackView>,
    sid: Option<Seq<char>>,
    aid: Option<Seq<char>>,
)
    ensures
        ({
            let r = player::playback_record(figures, still, tracks, sid, aid);
            &&& json::field(r, "time_pos"@) == Some(json::json_view(figures.time_pos))
            &&& json::field(r, "duration"@) == Some(json::json_view(figures.duration))
            &&& json::field(r, "percent_pos"@) == Some(json::json_view(figures.percent_pos))
            &&& json::field(r, "volume"@) == Some(json::json_view(figures.volume))
            &&& has_truth(r, "paused"@, player::says_yes(still.pause.deep_view()))
            &&& has_truth(r, "core_idle"@, player::says_yes(still.core_idle.deep_view()))
            &&& has_truth(r, "paused_for_cache"@, player::says_yes(still.paused_for_cache.deep_view()))
            &&& json::field(r, "sub_tracks"@) == Some(
                JsonView::List(
                    player::tracks_told("sub"@, tracks),
                ),
            )
            &&& json::field(r, "audio_tracks"@) == Some(
                JsonView::List(
                    player::tracks_told("audio"@, tracks),
                ),
            )
            &&& has_option(r, "sid"@, sid)
            &&& has_option(r, "aid"@, aid)
        }),
{
    reveal_strlit("time_pos");
    reveal_strlit("duration");
    reveal_strlit("percent_pos");
    reveal_strlit("volume");
    reveal_strlit("paused");
    reveal_strlit("core_idle");
    reveal_strlit("paused_for_cache");
    reveal_strlit("sub_tracks");
    reveal_strlit("audio_tracks");
    reveal_strlit("sid");
    reveal_strlit("aid");
    assert("time_pos"@.len() == 8);
    assert("duration"@.len() == 8);
    assert("percent_pos"@.len() == 11);
    assert("volume"@.len() == 6);
    assert("paused"@.len() == 6);
    assert("core_idle"@.len() == 9);
    assert("paused_for_cache"@.len() == 16);
    assert("sub_tracks"@.len() == 10);
    assert("audio_tracks"@.len() == 12);
    assert("sid"@.len() == 3);
    assert("aid"@.len() == 3);
    assert("time_pos"@[0] != "duration"@[0]);
    assert("volume"@[0] != "paused"@[0]);
    assert("sid"@[0] != "aid"@[0]);
}

/// The place of the window is told with its four edges and whether it is maximized.
pub proof fn law_placement_fields(rect: shell::Rect, maximized: bool)
    ensures
        ({
            let r = shell::placement_record(rect, maximized);
            &&& has_number(r, "left"@, rect.left as int)
            &&& has_number(r, "top"@, rect.top as int)
            &&& has_number(r, "right"@, rect.right as int)
            &&& has_number(r, "bottom"@, rect.bottom as int)
            &&& has_truth(r, "maximized"@, maximized)
        }),
{
    reveal_strlit("left");
    reveal_strlit("top");
    reveal_strlit("right");
    reveal_strlit("bottom");
    reveal_strlit("maximized");
    assert("left"@.len() == 4);
    assert("top"@.len() == 3);
    assert("right"@.len() == 5);
    assert("bottom"@.len() == 6);
    assert("maximized"@.len() == 9);
}

/// A track is told with its number, null where it has none, its name, its language and
/// whether it is chosen.
pub proof fn law_track_fields(kind: Seq<char>, t: player::TrackView)
    ensures
        ({
            let r = player::track_record(kind, t);
            &&& has_text(r, "title"@, player::track_title(kind, t))
            &&& has_option(r, "lang"@, t.lang)
            &&& has_truth(r, "selected"@, t.selected == Some("yes"@))
            &&& t.id is None ==> json::field(r, "id"@) == Some(JsonView::Null)
            &&& t.id is Some ==> match crate::text::number_in(t.id->0) {
                Some(n) => has_number(r, "id"@, n),
                None => json::field(r, "id"@) == Some(JsonView::Null),
            }
        }),
{
    reveal_strlit("id");
    reveal_strlit("title");
    reveal_strlit("lang");
    reveal_strlit("selected");
    assert("id"@.len() == 2);
    assert("title"@.len() == 5);
    assert("lang"@.len() == 4);
    assert("selected"@.len() == 8);
    assert(crate::text::number_in(Seq::empty()) is None);
}

/// The details of a show are told with the show, all its episodes in their order, those
/// that are behind, those that are to come, and its history.
pub proof fn law_details_fields(
    v: crate::replica::LibraryView,
    s: engine::ShowView,
    resumes: Seq<JsonView>,
    i: int,
)
    ensures
        ({
            let r = catalog::details_record(v, s, resumes);
            &&& json::field(r, "show"@) == Some(catalog::show_record(s))
            &&& json::field(r, "all_episodes"@) matches Some(JsonView::List(all)) && all.len()
                == s.episodes.len() && (0 <= i < all.len() ==> all[i] == catalog::episode_record(
                s.episodes[i],
                resumes[i],
            ))
            &&& json::field(r, "previous_episodes"@) == Some(
                JsonView::List(catalog::previous_among(s.episodes, resumes)),
            )
            &&& json::field(r, "upcoming_episodes"@) == Some(
                JsonView::List(
                    catalog::upcoming_among(s.episodes, resumes, catalog::next_id(s.episodes)),
                ),
            )
            &&& json::field(r, "history"@) is Some
        }),
{
    reveal_strlit("show");
    reveal_strlit("all_episodes");
    reveal_strlit("previous_episodes");
    reveal_strlit("upcoming_episodes");
    reveal_strlit("history");
    assert("show"@.len() == 4);
    assert("all_episodes"@.len() == 12);
    assert("previous_episodes"@.len() == 17);
    assert("upcoming_episodes"@.len() == 17);
    assert("history"@.len() == 7);
    assert("previous_episodes"@[0] != "upcoming_episodes"@[0]);
}

// ── phases ──────────────────────────────────────────────────────────────

proof fn lemma_phase_names_differ()
    ensures
        "phase"@.len() == 5,
        "message"@.len() == 7,
        "error_kind"@.len() == 10,
        "round_blocked"@.len() == 13,
        "round"@.len() == 5,
        "round_pos"@.len() == 9,
        "round_id"@.len() == 8,
        "advanced_count"@.len() == 14,
        "removed_shows"@.len() == 13,
        "last_advance"@.len() == 12,
        "phase"@[0] != "round"@[0],
        "round_blocked"@[1] != "removed_shows"@[1],
{
    reveal_strlit("phase");
    reveal_strlit("message");
    reveal_strlit("error_kind");
    reveal_strlit("round_blocked");
    reveal_strlit("round");
    reveal_strlit("round_pos");
    reveal_strlit("round_id");
    reveal_strlit("advanced_count");
    reveal_strlit("removed_shows");
    reveal_strlit("last_advance");
}

/// While a round plays, its entries, the place in it and its number are told, and what
/// an error left is cleared.
pub proof fn law_playing_fields(
    round: Seq<status::StatusRoundEntry>,
    pos: nat,
    round_id: int,
    i: int,
)
    ensures
        ({
            let r = status::playing_record(round, pos, round_id);
            &&& has_text(r, "phase"@, "playing"@)
            &&& has_text(r, "message"@, "round of "@ + crate::text::decimal(round.len()))
            &&& has_number(r, "round_pos"@, pos as int)
            &&& has_number(r, "round_id"@, round_id)
            &&& json::field(r, "error_kind"@) == Some(JsonView::Null)
            &&& has_truth(r, "round_blocked"@, false)
            &&& json::field(r, "round"@) matches Some(JsonView::List(entries)) && entries.len()
                == round.len() && (0 <= i < round.len() ==> entries[i]
                == status::round_entry_record(round[i]))
        }),
{
    lemma_phase_names_differ();
}

/// Where every show is finished, no round is told; where nothing of a round would
/// open, that is told as an error, and the round is blocked.
pub proof fn law_stopped_fields(message: Seq<char>)
    ensures
        ({
            let r = status::drained_record();
            &&& has_text(r, "phase"@, "drained"@)
            &&& json::field(r, "round"@) == Some(JsonView::List(Seq::empty()))
            &&& json::field(r, "round_id"@) == Some(JsonView::Null)
            &&& has_truth(r, "round_blocked"@, false)
        }),
        ({
            let r = status::unplayable_record(message);
            &&& has_text(r, "phase"@, "error"@)
            &&& has_text(r, "message"@, message)
            &&& has_text(r, "error_kind"@, "round_unplayable"@)
            &&& has_truth(r, "round_blocked"@, true)
            &&& json::field(r, "round_id"@) == Some(JsonView::Null)
        }),
{
    lemma_phase_names_differ();
}

/// An advance is told with the number of episodes and the shows that it finished.
pub proof fn law_advance_fields(removed: Seq<status::StatusRemovedShow>, count: nat, i: int)
    ensures
        json::field(status::advance_record(removed, count), "last_advance"@) matches Some(r) && {
            &&& has_number(r, "advanced_count"@, count as int)
            &&& json::field(r, "removed_shows"@) matches Some(JsonView::List(shows)) && shows.len()
                == removed.len() && (0 <= i < removed.len() ==> shows[i]
                == status::removed_show_record(removed[i]))
        },
{
    lemma_phase_names_differ();
}

} // verus!
