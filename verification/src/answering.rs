//! What requests, replies and events come to: what is answered, what is changed and
//! what is told to the player.

use vstd::prelude::*;

use crate::apiclient;
use crate::control;
use crate::control::ControlView;
use crate::filesync;
use crate::filesync::FileEvent;
use crate::json;
use crate::json::JsonView;
use crate::library;
use crate::oauth;
use crate::outcomes;
use crate::player;
use crate::player::{PlayerCall, PlayerEvent};
use crate::replica;
use crate::rounds;
use crate::routes::PostView;
use crate::runner;
use crate::runner::{EffectView, RunnerView};
use crate::spelling;
use crate::stream;
use crate::tables;
use crate::tables::{Keyed, QueueRow, ShowRow};
use crate::text;
use crate::turns;

verus! {

// ── controls of the round ───────────────────────────────────────────────

/// The entry that the player is at, where it is at one.
pub open spec fn entry_at(r: RunnerView) -> Option<rounds::RoundEntryView> {
    if r.round is Some && r.pos < r.round->0.len() {
        Some(r.round->0[r.pos as int])
    } else {
        None
    }
}

/// While no round can be on, a control of the round is refused as unavailable, and
/// nothing is changed or told.
pub proof fn law_no_controls_without_a_runner(
    c: ControlView,
    v: replica::LibraryView,
    request: PostView,
    now: Seq<char>,
    ids: Seq<Seq<char>>,
)
    requires
        c.runner is None,
        request is Skip || request is Previous || request is Defer,
    ensures
        ({
            let a = control::answered(c, v, request, now, ids);
            &&& a.reply.code == 503
            &&& a.library == v
            &&& a.server == c
            &&& a.effects.len() == 0
            &&& !a.changed
        }),
{
}

/// Skipping watches the entry that the player is at, sends the player on and asks for
/// a push. With no entry the player is sent on all the same, but the request is
/// refused as a conflict and nothing is watched.
pub proof fn law_skip_control(
    c: ControlView,
    v: replica::LibraryView,
    r: RunnerView,
    now: Seq<char>,
    ids: Seq<Seq<char>>,
)
    requires
        c.runner == Some(r),
    ensures
        ({
            let a = control::answered(c, v, PostView::Skip, now, ids);
            &&& a.server == c
            &&& entry_at(r) matches Some(e) ==> {
                &&& a.reply.code == 200
                &&& a.library == runner::entries_watched(v, seq![e], now, ids)
                &&& a.effects == seq![EffectView::Skip, EffectView::RequestPush]
            }
            &&& entry_at(r) is None ==> {
                &&& a.reply.code == 409
                &&& a.library == v
                &&& a.effects == seq![EffectView::Skip]
            }
        }),
{
}

/// Stepping back changes nothing in the library: the player goes back where it is at
/// an entry, and otherwise the request is refused as a conflict.
pub proof fn law_previous_control(
    c: ControlView,
    v: replica::LibraryView,
    r: RunnerView,
    now: Seq<char>,
    ids: Seq<Seq<char>>,
)
    requires
        c.runner == Some(r),
    ensures
        ({
            let a = control::answered(c, v, PostView::Previous, now, ids);
            &&& a.server == c
            &&& a.library == v
            &&& entry_at(r) is Some ==> a.reply.code == 200 && a.effects == seq![
                EffectView::Previous,
            ]
            &&& entry_at(r) is None ==> a.reply.code == 409 && a.effects.len() == 0
        }),
{
}

/// Deferring applies to the entry that the player is at, where that is an unwatched
/// episode of its show in the library: then a push is asked for, the player goes on,
/// and the entry is remembered as deferred, with those that were. Otherwise the
/// request is refused as a conflict and nothing is changed or told.
pub proof fn law_defer_control(
    c: ControlView,
    v: replica::LibraryView,
    r: RunnerView,
    now: Seq<char>,
    ids: Seq<Seq<char>>,
    id: Seq<char>,
)
    requires
        v.well_formed(),
        c.runner == Some(r),
    ensures
        ({
            let a = control::answered(c, v, PostView::Defer, now, ids);
            let applies = entry_at(r) matches Some(e) && (exists|s: int|
                0 <= s < v.shows.len() && (#[trigger] v.shows[s]).id == e.show_id) && (exists|
                x: int,
            |
                0 <= x < v.episodes.len() && (#[trigger] v.episodes[x]).id == e.episode_id
                    && v.episodes[x].show_id == e.show_id && v.episodes[x].watched_at is None);
            &&& applies ==> {
                &&& a.reply.code == 200
                &&& a.effects == seq![EffectView::RequestPush, EffectView::Skip]
                &&& a.server.runner is Some
                &&& a.server.runner->0.deferred.contains(id) <==> r.deferred.contains(id) || id
                    == entry_at(r)->0.episode_id
                &&& a.server.runner->0.round == r.round
                &&& a.server.runner->0.pos == r.pos
                &&& a.server.runner->0.playing == r.playing
            }
            &&& !applies ==> {
                &&& a.reply.code == 409
                &&& a.effects.len() == 0
                &&& a.server == c
                &&& a.library == v
            }
        }),
{
    match entry_at(r) {
        Some(e) => {
            outcomes::law_what_can_be_deferred(v, e.show_id, e.episode_id);
            vstd::seq_lib::lemma_seq_contains_after_push(r.deferred, e.episode_id, id);
        },
        None => {},
    }
}

/// A track choice is told to the player in any case; it is stored for the entry that
/// the player is at, and refused as a conflict where there is none.
pub proof fn law_track_controls(
    c: ControlView,
    v: replica::LibraryView,
    r: RunnerView,
    track: Seq<char>,
    now: Seq<char>,
    ids: Seq<Seq<char>>,
)
    requires
        c.runner == Some(r),
    ensures
        ({
            let a = control::answered(c, v, PostView::Sub(track), now, ids);
            let b = control::answered(c, v, PostView::Audio(Some(track)), now, ids);
            &&& a.server == c && b.server == c
            &&& a.effects == seq![EffectView::SetSub(track)]
            &&& b.effects == seq![EffectView::SetAudio(track)]
            &&& entry_at(r) matches Some(e) ==> {
                &&& a.reply.code == 200 && b.reply.code == 200
                &&& a.library == replica::track_chosen(
                    v,
                    e.episode_id,
                    replica::Track::Subtitle,
                    track,
                    now,
                )
                &&& b.library == replica::track_chosen(
                    v,
                    e.episode_id,
                    replica::Track::Audio,
                    track,
                    now,
                )
            }
            &&& entry_at(r) is None ==> a.reply.code == 409 && b.reply.code == 409 && a.library
                == v && b.library == v
        }),
{
}

/// Going to a show is answered as not found where the library has no such show. Where
/// a round is on and the player has a row of the show, the player goes to the first of
/// them, and a push is asked for; otherwise the request is refused as a conflict, and
/// nothing is changed or told.
pub proof fn law_play_show_control(
    c: ControlView,
    v: replica::LibraryView,
    r: RunnerView,
    id: Seq<char>,
    now: Seq<char>,
    ids: Seq<Seq<char>>,
    q: int,
)
    requires
        c.runner == Some(r),
        0 <= q < v.queue.len(),
    ensures
        ({
            let a = control::answered(c, v, PostView::PlayShow(id), now, ids);
            let rows = runner::shown_rows(r, v);
            let known = exists|s: int| 0 <= s < v.shows.len() && (#[trigger] v.shows[s]).id == id;
            let there = exists|i: int| 0 <= i < rows.len() && (#[trigger] rows[i]).show_id == id;
            &&& !known ==> a.reply.code == 404
            &&& known && !there ==> a.reply.code == 409
            &&& !known || !there ==> a.library == v && a.server == c && a.effects.len() == 0
            &&& known && there ==> {
                &&& a.reply.code == 200
                &&& a.server.runner matches Some(t) && t.pos < rows.len() && rows[t.pos as int].show_id
                    == id && a.effects == seq![
                    EffectView::SetPlaylistPos(t.pos),
                    EffectView::RequestPush,
                ] && t.round == r.round && t.deferred == r.deferred && t.playing == r.playing && (
                forall|j: int| 0 <= j < t.pos ==> (#[trigger] rows[j]).show_id != id)
            }
        }),
{
    tables::lemma_place::<ShowRow>(v.shows, id);
    match tables::place::<ShowRow>(v.shows, id) {
        Some(i) => {
            assert(ShowRow::key(v.shows[i]) == id);
            assert(v.shows[i].id == id);
        },
        None => {
            if exists|x: int| 0 <= x < v.shows.len() && (#[trigger] v.shows[x]).id == id {
                let x = choose|x: int| 0 <= x < v.shows.len() && (#[trigger] v.shows[x]).id == id;
                assert(ShowRow::key(v.shows[x]) == id);
            }
        },
    }
    turns::law_going_to_a_show(r, v, id, now, q);
}

/// Reloading takes the round off the player, so that it is loaded again, and says that
/// it is being fetched; the library stays.
pub proof fn law_reload_control(
    c: ControlView,
    v: replica::LibraryView,
    r: RunnerView,
    now: Seq<char>,
    ids: Seq<Seq<char>>,
)
    requires
        c.runner == Some(r),
    ensures
        ({
            let a = control::answered(c, v, PostView::ReloadRound, now, ids);
            &&& a.reply.code == 200
            &&& a.library == v
            &&& a.effects == seq![EffectView::ClearPlaylist]
            &&& a.server.runner == c.runner
            &&& c.status is Record ==> json::field(a.server.status, "phase"@) == Some(
                JsonView::Text("fetching"@),
            )
        }),
{
    reveal_strlit("phase");
    reveal_strlit("message");
    reveal_strlit("error_kind");
    reveal_strlit("round_blocked");
    assert("phase"@.len() == 5);
    assert("message"@.len() == 7);
    assert("error_kind"@.len() == 10);
    assert("round_blocked"@.len() == 13);
}

/// Pausing sets the states that are named, each in turn, and toggles where none is;
/// it changes nothing else.
pub proof fn law_pause_control(
    c: ControlView,
    v: replica::LibraryView,
    states: Seq<bool>,
    now: Seq<char>,
    ids: Seq<Seq<char>>,
    i: int,
)
    ensures
        ({
            let a = control::answered(c, v, PostView::Pause(states), now, ids);
            &&& a.reply.code == 200
            &&& a.server == c
            &&& a.library == v
            &&& states.len() == 0 ==> a.effects == seq![EffectView::TogglePause]
            &&& states.len() > 0 ==> a.effects.len() == states.len()
            &&& 0 <= i < states.len() ==> a.effects[i] == EffectView::SetPause(states[i])
        }),
{
}

// ── controls of the library ─────────────────────────────────────────────

/// A show is removed if and only if the library has it; otherwise the request is
/// answered as not found.
pub proof fn law_remove_control(
    c: ControlView,
    v: replica::LibraryView,
    id: Seq<char>,
    now: Seq<char>,
    ids: Seq<Seq<char>>,
    s: int,
)
    requires
        0 <= s < v.shows.len(),
    ensures
        ({
            let a = control::answered(c, v, PostView::Remove(id), now, ids);
            let found = exists|x: int| 0 <= x < v.shows.len() && (#[trigger] v.shows[x]).id == id;
            &&& a.reply.code == if found {
                200u16
            } else {
                404u16
            }
            &&& a.changed == found
            &&& a.server == c
            &&& a.effects.len() == 0
            &&& v.shows[s].id == id ==> a.library.shows[s].removed_at == Some(now)
            &&& v.shows[s].id != id ==> a.library.shows[s] == v.shows[s]
        }),
{
    tables::lemma_place::<ShowRow>(v.shows, id);
    match tables::place::<ShowRow>(v.shows, id) {
        Some(i) => {
            assert(ShowRow::key(v.shows[i]) == id);
            assert(v.shows[i].id == id);
        },
        None => {
            if exists|x: int| 0 <= x < v.shows.len() && (#[trigger] v.shows[x]).id == id {
                let x = choose|x: int| 0 <= x < v.shows.len() && (#[trigger] v.shows[x]).id == id;
                assert(ShowRow::key(v.shows[x]) == id);
            }
        },
    }
}

/// An entry is taken out of the stored round if and only if the round has it;
/// otherwise the request is answered as not found and nothing changes.
pub proof fn law_remove_entry_control(
    c: ControlView,
    v: replica::LibraryView,
    id: Seq<char>,
    now: Seq<char>,
    ids: Seq<Seq<char>>,
)
    ensures
        ({
            let a = control::answered(c, v, PostView::RemoveEntry(id), now, ids);
            let found = exists|q: int|
                0 <= q < v.queue.len() && (#[trigger] v.queue[q]).episode_id == id;
            &&& a.reply.code == if found {
                200u16
            } else {
                404u16
            }
            &&& a.changed == found
            &&& !found ==> a.library == v
        }),
{
    tables::lemma_place::<QueueRow>(v.queue, id);
    match tables::place::<QueueRow>(v.queue, id) {
        Some(i) => {
            assert(QueueRow::key(v.queue[i]) == id);
            assert(v.queue[i].episode_id == id);
        },
        None => {
            if exists|q: int| 0 <= q < v.queue.len() && (#[trigger] v.queue[q]).episode_id == id {
                let q = choose|q: int|
                    0 <= q < v.queue.len() && (#[trigger] v.queue[q]).episode_id == id;
                assert(QueueRow::key(v.queue[q]) == id);
            }
        },
    }
}

/// Marking and editing a show are done as they are asked for, and are told.
pub proof fn law_library_controls(
    c: ControlView,
    v: replica::LibraryView,
    id: Seq<char>,
    name: Option<Seq<char>>,
    root_path: Option<Seq<char>>,
    playlist: Option<Seq<char>>,
    now: Seq<char>,
    ids: Seq<Seq<char>>,
)
    ensures
        ({
            let a = control::answered(c, v, PostView::MarkWatched(id), now, ids);
            &&& a.library == library::show_watched(v, id, now, ids)
            &&& a.changed && a.reply.code == 200 && a.server == c && a.effects.len() == 0
        }),
        ({
            let a = control::answered(c, v, PostView::MarkUnwatched(id), now, ids);
            &&& a.library == library::show_unwatched(v, id, now)
            &&& a.changed && a.reply.code == 200 && a.server == c && a.effects.len() == 0
        }),
        ({
            let request = PostView::Update { show_id: id, name, root_path, playlist };
            let a = control::answered(c, v, request, now, ids);
            &&& a.library == library::show_edited(v, id, name, root_path, playlist, now)
            &&& a.changed && a.reply.code == 200 && a.server == c && a.effects.len() == 0
        }),
{
}

// ── signing in ──────────────────────────────────────────────────────────

/// A token is used while more than a minute of it is left, and an empty one never.
pub proof fn law_token_is_used_while_it_lasts(t: oauth::TokenView, now: int)
    ensures
        oauth::usable(Some(t), now) is Some <==> t.token.len() > 0 && t.expires_at - now > 60,
        oauth::usable(Some(t), now) is Some ==> oauth::usable(Some(t), now)->0 == t,
        oauth::usable(None, now) is None,
{
}

/// A stored token counts only with the version of this store; its fields are read as
/// they stand, and what is missing is empty.
pub proof fn law_stored_token_needs_its_version(v: JsonView)
    ensures
        oauth::token_in(v) is Some <==> json::field(v, "version"@) == Some(JsonView::Int(1)),
        oauth::token_in(v) matches Some(t) ==> {
            &&& t.version == 1
            &&& json::field(v, "token"@) matches Some(JsonView::Text(s)) ==> t.token == s
            &&& json::field(v, "token"@) is None ==> t.token.len() == 0
            &&& json::field(v, "expires_at"@) is None ==> t.expires_at == 0
            &&& json::field(v, "expires_at"@) matches Some(JsonView::Int(n)) ==> (i64::MIN <= n
                <= i64::MAX ==> t.expires_at == n)
        },
{
}

/// The value of a name in a query is the last that is given for it.
pub proof fn law_last_value_counts(pairs: Seq<(Seq<char>, Seq<char>)>, key: Seq<char>)
    ensures
        oauth::last_value(pairs, key) is None ==> forall|i: int|
            0 <= i < pairs.len() ==> (#[trigger] pairs[i]).0 != key,
        oauth::last_value(pairs, key) matches Some(x) ==> exists|i: int|
            0 <= i < pairs.len() && (#[trigger] pairs[i]).0 == key && pairs[i].1 == x && forall|
                j: int,
            |
                i < j < pairs.len() ==> (#[trigger] pairs[j]).0 != key,
    decreases pairs.len(),
{
    if pairs.len() > 0 {
        let front = pairs.drop_last();
        let n = pairs.len() - 1;
        law_last_value_counts(front, key);
        assert(pairs[n] == pairs.last());
        if pairs.last().0 != key {
            match oauth::last_value(front, key) {
                Some(x) => {
                    let i = choose|i: int|
                        0 <= i < front.len() && (#[trigger] front[i]).0 == key && front[i].1 == x
                            && forall|j: int| i < j < front.len() ==> (#[trigger] front[j]).0
                            != key;
                    assert(pairs[i] == front[i]);
                    assert forall|j: int| i < j < pairs.len() implies (#[trigger] pairs[j]).0
                        != key by {
                        if j < n {
                            assert(front[j].0 != key);
                        }
                    }
                },
                None => {
                    assert forall|i: int| 0 <= i < pairs.len() implies (#[trigger] pairs[i]).0
                        != key by {
                        if i < n {
                            assert(front[i].0 != key);
                        }
                    }
                },
            }
        }
    }
}

/// The pairs of a query are its parts with an equals sign, in order: the name stands
/// before the first of them, and the value behind it, decoded.
pub proof fn law_query_pairs(x: Seq<Seq<char>>, y: Seq<Seq<char>>, k: Seq<char>, v: Seq<char>)
    ensures
        oauth::query_pairs(x + y) == oauth::query_pairs(x) + oauth::query_pairs(y),
        !k.contains('=') ==> oauth::query_pairs(seq![k.push('=') + v]) == seq![
            (k, oauth::query_value(v)),
        ],
        !k.contains('=') ==> oauth::query_pairs(seq![k]).len() == 0,
{
    lemma_query_pairs_apart(x, y);
    if !k.contains('=') {
        let part = k.push('=') + v;
        assert forall|i: int| 0 <= i < k.len() implies #[trigger] k[i] != '=' by {
            assert(k.contains(k[i]));
        }
        spelling::law_cutting_in_two(part, '=');
        assert(part[k.len() as int] == '=');
        let (a, b) = text::cut(part, '=')->0;
        assert(a.len() == k.len()) by {
            if a.len() < k.len() {
                assert(part[a.len() as int] == (a.push('=') + b)[a.len() as int]);
                assert(k[a.len() as int] == '=');
            } else if a.len() > k.len() {
                assert(part[k.len() as int] == (a.push('=') + b)[k.len() as int]);
                assert(a[k.len() as int] == '=');
            }
        }
        assert(a =~= k) by {
            assert forall|i: int| 0 <= i < k.len() implies a[i] == k[i] by {
                assert(part[i] == (a.push('=') + b)[i]);
            }
        }
        assert(b =~= v) by {
            assert(b.len() == v.len());
            assert forall|i: int| 0 <= i < v.len() implies b[i] == v[i] by {
                assert(part[k.len() + 1 + i] == (a.push('=') + b)[k.len() + 1 + i]);
            }
        }
        let one = seq![part];
        assert(one.drop_last() =~= Seq::empty());
        assert(oauth::query_pairs(one.drop_last()) =~= Seq::empty());
        assert(oauth::query_pairs(one) =~= seq![(k, oauth::query_value(v))]);
        spelling::law_cutting_in_two(k, '=');
        let bare = seq![k];
        assert(bare.drop_last() =~= Seq::empty());
        assert(oauth::query_pairs(bare.drop_last()) =~= Seq::empty());
    }
}

proof fn lemma_query_pairs_apart(x: Seq<Seq<char>>, y: Seq<Seq<char>>)
    ensures
        oauth::query_pairs(x + y) == oauth::query_pairs(x) + oauth::query_pairs(y),
    decreases y.len(),
{
    if y.len() == 0 {
        assert(x + y =~= x);
        assert(oauth::query_pairs(x) + oauth::query_pairs(y) =~= oauth::query_pairs(x));
    } else {
        lemma_query_pairs_apart(x, y.drop_last());
        assert((x + y).drop_last() =~= x + y.drop_last());
        assert((x + y).last() == y.last());
        assert(oauth::query_pairs(x + y) =~= oauth::query_pairs(x) + oauth::query_pairs(y));
    }
}

/// A callback gives its code if and only if it is to the callback's path, carries the
/// state that was sent, and has a code. A request to another path is not the callback;
/// one without the state, or without a code, ends the sign-in.
pub proof fn law_callback_outcome(line: Seq<char>, state: Seq<char>)
    ensures
        ({
            let (path, query) = oauth::request_target(line);
            let pairs = oauth::query_pairs(text::split(query, '&'));
            let said = oauth::last_value(pairs, "state"@);
            let code = oauth::last_value(pairs, "code"@);
            let out = oauth::callback_outcome(line, state);
            &&& out is KeepListening <==> path != "/callback"@
            &&& out is Code <==> path == "/callback"@ && said == Some(state) && code is Some
                && code->0.len() > 0
            &&& out matches oauth::CallbackOutcomeView::Code(c) ==> code == Some(c)
        }),
{
}

/// The answer of a token exchange gives a token if and only if it names one that is
/// not empty; it is the token that is named, of the version of this store.
pub proof fn law_exchange_gives_the_named_token(answer: JsonView)
    ensures
        oauth::token_or_reason(answer) is Ok <==> (json::field(
            answer,
            "token"@,
        ) matches Some(JsonView::Text(t)) && t.len() > 0),
        oauth::token_or_reason(answer) matches Ok(t) ==> json::field(answer, "token"@) == Some(
            JsonView::Text(t.token),
        ) && t.version == 1,
{
}

// ── replies of the origin ───────────────────────────────────────────────

/// A reply is good if and only if it came and its status is below 300; then its body
/// is the answer, and otherwise the error tells the request, the status and the body,
/// or why nothing came.
pub proof fn law_reply_is_good_below_300(method: Seq<char>, path: Seq<char>, reply: apiclient::Reply)
    ensures
        ({
            let out = apiclient::concluded(method, path, reply);
            &&& out is Ok <==> reply is Ok && reply->Ok_0.0 < 300
            &&& out matches Ok(body) ==> body == reply->Ok_0.1@
            &&& reply matches Err(reason) ==> out == Err::<Seq<char>, Seq<char>>(reason@)
            &&& reply is Ok && reply->Ok_0.0 >= 300 ==> out->Err_0 == method + " "@ + path + ": "@
                + text::decimal(reply->Ok_0.0 as nat) + " "@ + text::trimmed(reply->Ok_0.1@)
            &&& apiclient::is_unauthorized(reply) <==> reply is Ok && reply->Ok_0.0 == 401
        }),
{
}

// ── the player's events ─────────────────────────────────────────────────

/// What the player's events call for: an end of a file counts only where it played
/// out; an opened file is told, and what is shown of it; a shutdown wakes who waits
/// and stops; anything else calls for nothing.
pub proof fn law_player_events(reason: Option<i32>, active: bool)
    ensures
        player::calls_of(PlayerEvent::Shutdown, active) == seq![PlayerCall::Wake, PlayerCall::Stop],
        player::calls_of(PlayerEvent::FileLoaded, active) == seq![
            PlayerCall::FileLoaded,
            PlayerCall::PlaybackChanged,
        ],
        player::calls_of(PlayerEvent::Other, active).len() == 0,
        reason == Some(0i32) ==> player::calls_of(PlayerEvent::EndFile { reason }, active) == seq![
            PlayerCall::NaturalEnd,
        ],
        reason != Some(0i32) ==> player::calls_of(PlayerEvent::EndFile { reason }, active).len()
            == 0,
{
}

/// The place in the playlist tells where the round is: a place moves to it, and a
/// negative one wakes who waits for the end of a round that was on. Of the other
/// properties, those that are shown are told as a change, and the rest call for
/// nothing.
pub proof fn law_property_events(name: String, value: Option<String>, active: bool)
    ensures
        ({
            let calls = player::calls_of(PlayerEvent::Property { name, value }, active);
            let shown = name@ == "time-pos"@ || name@ == "duration"@ || name@ == "percent-pos"@
                || name@ == "volume"@ || name@ == "pause"@ || name@ == "sid"@ || name@ == "aid"@
                || name@ == "track-list/count"@;
            &&& shown ==> calls == seq![PlayerCall::PlaybackChanged]
            &&& !shown && name@ != "playlist-pos"@ ==> calls.len() == 0
            &&& name@ == "playlist-pos"@ && value is None ==> calls.len() == 0
            &&& name@ == "playlist-pos"@ && value is Some ==> match text::number_in(value->0@) {
                Some(n) => {
                    &&& n >= 0 ==> calls == seq![PlayerCall::Position(n as usize)]
                    &&& n < 0 && active ==> calls == seq![PlayerCall::Wake]
                    &&& n < 0 && !active ==> calls.len() == 0
                },
                None => calls.len() == 0,
            }
        }),
{
    reveal_strlit("playlist-pos");
    reveal_strlit("time-pos");
    reveal_strlit("duration");
    reveal_strlit("percent-pos");
    reveal_strlit("volume");
    reveal_strlit("pause");
    reveal_strlit("sid");
    reveal_strlit("aid");
    reveal_strlit("track-list/count");
    let all = player::shown_properties();
    assert("playlist-pos"@.len() == 12);
    assert("time-pos"@.len() == 8 && "duration"@.len() == 8 && "percent-pos"@.len() == 11);
    assert("volume"@.len() == 6 && "pause"@.len() == 5 && "sid"@.len() == 3 && "aid"@.len() == 3);
    assert("track-list/count"@.len() == 16);
    assert(all[0] == "time-pos"@ && all[1] == "duration"@ && all[2] == "percent-pos"@ && all[3]
        == "volume"@);
    assert(all[4] == "pause"@ && all[5] == "sid"@ && all[6] == "aid"@ && all[7]
        == "track-list/count"@);
    assert(value.deep_view() is Some == value is Some);
    let event = PlayerEvent::Property { name, value };
    assert(Seq::<PlayerCall>::empty().push(PlayerCall::PlaybackChanged) =~= seq![
        PlayerCall::PlaybackChanged,
    ]);
    if all.contains(name@) {
        let k = choose|k: int| 0 <= k < all.len() && all[k] == name@;
        assert(0 <= k < 8);
    }
}

/// Why a wait ends: a shutdown of the player goes before a stop of the runner, and
/// that before an interruption; with none of them the wait goes on.
pub proof fn law_why_a_wait_ends(shutdown: bool, stopped: bool, interrupted: bool)
    ensures
        ({
            let why = player::reason_to_stop(shutdown, stopped, interrupted);
            &&& why is None <==> !shutdown && !stopped && !interrupted
            &&& shutdown ==> why == Some("mpv shutdown event"@)
            &&& !shutdown && stopped ==> why == Some("runner stopped"@)
            &&& !shutdown && !stopped && interrupted ==> why == Some("interrupted"@)
        }),
{
}

// ── the files of a round ────────────────────────────────────────────────

/// How a file is brought: it is looked for in the cache, where it is not there at its
/// source, and only where it is there is its folder made and is it copied. Each file
/// ends as exactly one of cached, missing, failed and copied.
pub proof fn law_file_is_brought_in_turn(
    report: filesync::ReportView,
    entry: rounds::RoundEntryView,
    local_path: Seq<char>,
    event: FileEvent,
)
    ensures
        ({
            let (after, action) = filesync::file_stepped(report, entry, local_path, event);
            &&& action is CheckCache <==> event is Begin
            &&& action is CheckSource <==> event == FileEvent::Cached(false)
            &&& action is MakeFolder <==> event == FileEvent::Source(true)
            &&& action is Copy <==> event is Folder && event->Folder_0 is Ok
            &&& after.cached == report.cached + (if event == FileEvent::Cached(true) {
                1int
            } else {
                0
            })
            &&& after.missing == report.missing + (if event == FileEvent::Source(false) {
                1int
            } else {
                0
            })
            &&& after.copied == report.copied + (if event is Copied && event->Copied_0 is Ok {
                1int
            } else {
                0
            })
            &&& after.failed == report.failed + (if event is Folder && event->Folder_0 is Err
                || event is Copied && event->Copied_0 is Err {
                1int
            } else {
                0
            })
            &&& report.problems.len() >= 5 ==> after.problems == report.problems
            &&& report.problems.len() < 5 && (after.missing > report.missing || after.failed
                > report.failed) ==> {
                &&& after.problems.len() == report.problems.len() + 1
                &&& after.problems.drop_last() == report.problems
                &&& after.problems.last().episode_id == entry.episode_id
                &&& after.problems.last().show_name == entry.show_name
                &&& after.problems.last().source_path == entry.nas_absolute_path
                &&& after.problems.last().local_path == local_path
            }
        }),
{
    let (after, action) = filesync::file_stepped(report, entry, local_path, event);
    if report.problems.len() < 5 && (after.missing > report.missing || after.failed
        > report.failed) {
        assert(after.problems.drop_last() =~= report.problems);
    }
}

/// What became of the files is told for long where it is incomplete, and else briefly,
/// with the summary.
pub proof fn law_notice_of_the_files(r: filesync::ReportView)
    ensures
        ({
            let n = filesync::outcome_notice(r);
            let lacks = r.missing > 0 || r.failed > 0;
            &&& lacks ==> n.duration_ms == 8000 && n.text == "Round file sync incomplete: "@
                + filesync::summary_of(r)
            &&& !lacks ==> n.duration_ms == 3000 && n.text == "Round files sync complete: "@
                + filesync::summary_of(r)
        }),
{
}

// ── followers ───────────────────────────────────────────────────────────

/// A follower that leaves is gone, and the others stay as they are, in their order.
pub proof fn law_leaving_follower(streams: Seq<stream::StreamView>, id: u64)
    ensures
        stream::without(streams, id) == streams.filter(|s: stream::StreamView| s.id != id),
    decreases streams.len(),
{
    reveal(Seq::filter);
    if streams.len() > 0 {
        law_leaving_follower(streams.drop_last(), id);
    }
}

} // verus!
