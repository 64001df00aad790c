//! What is told: the alerts that follow from a status, the frames of the stream, the
//! steps of a sync, and the player's tracks.

use vstd::prelude::*;

use crate::json;
use crate::json::JsonView;
use crate::player;
use crate::status;
use crate::sync;
use crate::sync::{PendingBreakdown, Purpose, SyncAction, SyncEvent, SyncRun, SyncerView};

verus! {

// ── alerts ──────────────────────────────────────────────────────────────

proof fn lemma_alert_names_differ()
    ensures
        "level"@.len() == 5,
        "title"@.len() == 5,
        "level"@[0] != "title"@[0],
        "message"@.len() == 7,
        "detail"@.len() == 6,
{
    reveal_strlit("level");
    reveal_strlit("title");
    reveal_strlit("message");
    reveal_strlit("detail");
}

/// Whether a status says that the origin is offline.
pub open spec fn says_offline(status: JsonView) -> bool {
    json::field(status, "sync"@) matches Some(sync) && json::field(sync, "online"@) == Some(
        JsonView::Bool(false),
    )
}

/// Whether a status says that files of the round could not be had.
pub open spec fn says_incomplete(status: JsonView) -> bool {
    json::field(status, "file_sync"@) matches Some(f) && json::field(f, "incomplete"@) == Some(
        JsonView::Bool(true),
    )
}

/// Whether an alert has a level and a title.
pub open spec fn is_alert(alert: JsonView, level: Seq<char>, title: Seq<char>) -> bool {
    &&& json::field(alert, "level"@) == Some(JsonView::Text(level))
    &&& json::field(alert, "title"@) == Some(JsonView::Text(title))
}

/// There is an alert for an origin that is offline and one for files that could not be
/// had, in this order, each if and only if the status says so, and no other. The one
/// for the files is a danger where nothing of the round would open, and else a
/// warning. Where the reason for being offline is known, the alert tells it.
pub proof fn law_alerts_follow_the_status(status: JsonView)
    ensures
        ({
            let alerts = status::alerts_of(status);
            let offline: int = if says_offline(status) {
                1
            } else {
                0
            };
            let files: int = if says_incomplete(status) {
                1
            } else {
                0
            };
            let blocked = json::field(status, "error_kind"@) == Some(
                JsonView::Text("round_unplayable"@),
            );
            &&& alerts.len() == offline + files
            &&& says_offline(status) ==> is_alert(alerts[0], "danger"@, "Sync offline"@)
            &&& says_incomplete(status) && blocked ==> is_alert(
                alerts[offline],
                "danger"@,
                "Round has no playable media"@,
            )
            &&& says_incomplete(status) && !blocked ==> is_alert(
                alerts[offline],
                "warning"@,
                "Round file sync incomplete"@,
            )
            &&& says_offline(status) ==> {
                let sync = json::field(status, "sync"@)->0;
                json::field(sync, "last_error"@) matches Some(JsonView::Text(reason)) ==> (
                reason.len() > 0 ==> json::field(alerts[0], "message"@) == Some(
                    JsonView::Text(reason),
                ))
            }
        }),
{
    lemma_alert_names_differ();
}

// ── frames ──────────────────────────────────────────────────────────────

/// A text without a line end is one data line as it stands, and each line end begins
/// another data line.
pub proof fn law_data_lines(a: Seq<char>, b: Seq<char>)
    ensures
        (forall|i: int| 0 <= i < a.len() ==> #[trigger] a[i] != '\n') ==> status::data_lines(a) == a,
        status::data_lines(a.push('\n') + b) == status::data_lines(a) + "\ndata: "@
            + status::data_lines(b),
    decreases a.len() + b.len(),
{
    if (forall|i: int| 0 <= i < a.len() ==> #[trigger] a[i] != '\n') && a.len() > 0 {
        let front = a.drop_last();
        assert forall|i: int| 0 <= i < front.len() implies #[trigger] front[i] != '\n' by {
            assert(a[i] != '\n');
        }
        law_data_lines(front, Seq::empty());
        assert(a[a.len() - 1] != '\n');
        assert(front.push(a.last()) =~= a);
    }
    let whole = a.push('\n') + b;
    if b.len() == 0 {
        assert(whole =~= a.push('\n'));
        assert(a.push('\n').drop_last() =~= a);
        assert(status::data_lines(a) + "\ndata: "@ + status::data_lines(b)
            =~= status::data_lines(a) + "\ndata: "@);
    } else {
        let front = b.drop_last();
        law_data_lines(a, front);
        assert(whole.drop_last() =~= a.push('\n') + front);
        assert(whole.last() == b.last());
        assert(status::data_lines(whole) =~= status::data_lines(a) + "\ndata: "@
            + status::data_lines(b));
    }
}

// ── the steps of a sync ─────────────────────────────────────────────────

/// What comes once the local changes are with the origin: a full sync reads the shared
/// library, and a push is done.
pub open spec fn comes_after_the_push(action: SyncAction, purpose: Purpose) -> bool {
    if purpose is Sync {
        action is LoadShows
    } else {
        action == SyncAction::Finish(true)
    }
}

/// A sync goes in turn. A seed reads the shared library at once. Otherwise the local
/// changes go first: where there is a library the shared shows are counted, and where
/// there are none the whole library is to be pushed; then what is pending is pushed,
/// and nothing is where nothing is pending. Reading takes the shows, then the queues,
/// then the merge. What fails ends the sync, and it ends badly.
pub proof fn law_sync_goes_in_turn(
    syncer: SyncerView,
    run: SyncRun,
    event: SyncEvent,
    pending: PendingBreakdown,
    now: u64,
)
    ensures
        ({
            let s = sync::stepped(syncer, run, event, pending, now);
            let waits = run.pending.shows + run.pending.episodes + run.pending.history
                + run.pending.queue;
            let counted = pending.shows + pending.episodes + pending.history + pending.queue;
            &&& event is Begin ==> s.action is Open
            &&& event matches SyncEvent::Opened(Ok(has_library)) ==> {
                &&& run.purpose is Seed ==> s.action is LoadShows
                &&& run.purpose !is Seed && has_library ==> s.action is CountShows
                &&& run.purpose !is Seed && !has_library && counted != 0 ==> s.action is Push
                &&& run.purpose !is Seed && !has_library && counted == 0 ==> comes_after_the_push(
                    s.action,
                    run.purpose,
                )
                &&& run.purpose !is Seed ==> s.run.pending == pending
            }
            &&& event matches SyncEvent::Counted(Ok(shows)) ==> {
                &&& shows == 0 ==> s.action is MarkAllDirty
                &&& shows != 0 && waits != 0 ==> s.action is Push
                &&& shows != 0 && waits == 0 ==> comes_after_the_push(s.action, run.purpose)
            }
            &&& event is MarkedDirty && event->MarkedDirty_0 is Ok ==> {
                &&& counted != 0 ==> s.action is Push
                &&& counted == 0 ==> comes_after_the_push(s.action, run.purpose)
            }
            &&& event is Pushed && event->Pushed_0 is Ok ==> comes_after_the_push(
                s.action,
                run.purpose,
            )
            &&& event is ShowsLoaded && event->ShowsLoaded_0 is Ok ==> s.action is LoadQueues
            &&& event is QueuesLoaded && event->QueuesLoaded_0 is Ok ==> s.action is Merge
            &&& event is Merged ==> s.action == SyncAction::Finish(true)
            &&& sync::is_failure(event) ==> s.action == SyncAction::Finish(false)
                && !s.syncer.online && s.syncer.last_error is Some
            &&& s.syncer.playlists == syncer.playlists
            &&& s.syncer.shared_db_path == syncer.shared_db_path
        }),
{
}

// ── tracks ──────────────────────────────────────────────────────────────

/// The tracks of a kind are those that the player has of it, in its order.
pub proof fn law_tracks_of_a_kind(kind: Seq<char>, tracks: Seq<player::TrackView>)
    ensures
        player::tracks_told(kind, tracks) == tracks.filter(
            |t: player::TrackView| t.kind == Some(kind),
        ).map_values(|t: player::TrackView| player::track_record(kind, t)),
    decreases tracks.len(),
{
    reveal(Seq::filter);
    let is_kind = |t: player::TrackView| t.kind == Some(kind);
    let told = |t: player::TrackView| player::track_record(kind, t);
    if tracks.len() > 0 {
        let front = tracks.drop_last();
        law_tracks_of_a_kind(kind, front);
        if is_kind(tracks.last()) {
            assert(tracks.filter(is_kind).map_values(told) =~= front.filter(is_kind).map_values(
                told,
            ).push(told(tracks.last())));
        }
    } else {
        assert(tracks.filter(is_kind).map_values(told) =~= seq![]);
    }
}

/// A track is called by its title, where it has none by its language, and where it has
/// neither by its kind and its number.
pub proof fn law_name_of_a_track(kind: Seq<char>, t: player::TrackView)
    ensures
        ({
            let name = player::track_title(kind, t);
            &&& t.title is Some ==> name == t.title->0
            &&& t.title is None && t.lang is Some ==> name == t.lang->0
            &&& t.title is None && t.lang is None && t.id is Some ==> name == kind + " "@ + t.id->0
        }),
{
}

} // verus!
