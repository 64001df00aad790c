//! The stored round: which episodes it holds, in what order, and how far each
//! has come.

use vstd::prelude::*;

use crate::clock;
use crate::replica;
use crate::replica::Replica;
use crate::sorting;
use crate::tables;
use crate::tables::{Keyed, QueueRow, QueueStamp};
use crate::text;

verus! {

/// An entry of a round to be stored: episode, show, place, state and playlist.
pub type StoredEntry = (String, String, i32, String, String);

pub type StoredEntryView = (Seq<char>, Seq<char>, i32, Seq<char>, Seq<char>);

/// The rows of a stored round.
pub open spec fn queue_rows(entries: Seq<StoredEntryView>, updated_at: Seq<char>) -> Seq<
    tables::QueueRowView,
> {
    Seq::new(
        entries.len(),
        |i: int|
            tables::QueueRowView {
                episode_id: entries[i].0,
                show_id: entries[i].1,
                play_order: entries[i].2,
                state: entries[i].3,
                playlist: entries[i].4,
                updated_at,
                dirty: 0,
            },
    )
}

/// The stamps with that of a playlist set.
pub open spec fn stamped(
    stamps: Seq<tables::QueueStampView>,
    playlist: Seq<char>,
    updated_at: Seq<char>,
) -> Seq<tables::QueueStampView> {
    let stamp = tables::QueueStampView { playlist, updated_at };
    match tables::place::<QueueStamp>(stamps, playlist) {
        Some(i) => stamps.update(i, stamp),
        None => stamps.push(stamp),
    }
}

/// The stamps with that of every entry's playlist set.
pub open spec fn all_stamped(
    stamps: Seq<tables::QueueStampView>,
    entries: Seq<StoredEntryView>,
    updated_at: Seq<char>,
) -> Seq<tables::QueueStampView>
    decreases entries.len(),
{
    if entries.len() == 0 {
        stamps
    } else {
        stamped(
            all_stamped(stamps, entries.drop_last(), updated_at),
            entries.last().4,
            updated_at,
        )
    }
}

/// The library with its stored round replaced.
pub open spec fn round_saved(
    v: replica::LibraryView,
    entries: Seq<StoredEntryView>,
    updated_at: Seq<char>,
) -> replica::LibraryView {
    replica::LibraryView {
        queue: queue_rows(entries, updated_at),
        queue_stamps: all_stamped(v.queue_stamps, entries, updated_at),
        ..v.touched(v.queue.len()).touched(entries.len())
    }
}

/// No episode is in the round twice.
pub open spec fn distinct_entries(entries: Seq<StoredEntryView>) -> bool {
    forall|i: int, j: int|
        #![trigger entries[i], entries[j]]
        0 <= i < j < entries.len() ==> entries[i].0 != entries[j].0
}

/// How many entries of the round are of the playlist.
pub open spec fn playlist_hits(rows: Seq<tables::QueueRowView>, playlist: Seq<char>) -> nat
    decreases rows.len(),
{
    if rows.len() == 0 {
        0
    } else {
        playlist_hits(rows.drop_last(), playlist) + if rows.last().playlist == playlist {
            1nat
        } else {
            0nat
        }
    }
}

/// The rows with every row of the playlist stamped.
pub open spec fn rows_stamped(
    rows: Seq<tables::QueueRowView>,
    playlist: Seq<char>,
    now: Seq<char>,
) -> Seq<tables::QueueRowView> {
    Seq::new(
        rows.len(),
        |i: int|
            if rows[i].playlist == playlist {
                tables::QueueRowView { updated_at: now, dirty: 0, ..rows[i] }
            } else {
                rows[i]
            },
    )
}

pub open spec fn rows_in_state(
    rows: Seq<tables::QueueRowView>,
    episode_id: Seq<char>,
    state: Seq<char>,
    now: Seq<char>,
) -> Seq<tables::QueueRowView> {
    Seq::new(
        rows.len(),
        |i: int|
            if rows[i].episode_id == episode_id {
                tables::QueueRowView { state, updated_at: now, dirty: 0, ..rows[i] }
            } else {
                rows[i]
            },
    )
}

/// The library with an entry's state set and its playlist's rows stamped.
pub open spec fn entry_in_state(
    v: replica::LibraryView,
    episode_id: Seq<char>,
    state: Seq<char>,
    playlist: Seq<char>,
    now: Seq<char>,
) -> replica::LibraryView {
    let set = rows_in_state(v.queue, episode_id, state, now);
    replica::LibraryView {
        queue: rows_stamped(set, playlist, now),
        ..v.touched(tables::hits::<QueueRow>(v.queue, episode_id)).touched(
            playlist_hits(set, playlist),
        )
    }
}

pub open spec fn queue_without(
    rows: Seq<tables::QueueRowView>,
    episode_id: Seq<char>,
) -> Seq<tables::QueueRowView>
    decreases rows.len(),
{
    if rows.len() == 0 {
        rows
    } else if rows.last().episode_id == episode_id {
        queue_without(rows.drop_last(), episode_id)
    } else {
        queue_without(rows.drop_last(), episode_id).push(rows.last())
    }
}

/// The show and playlist of an entry of the round.
pub open spec fn entry_of(v: replica::LibraryView, episode_id: Seq<char>) -> Option<
    (Seq<char>, Seq<char>),
> {
    match tables::place::<QueueRow>(v.queue, episode_id) {
        Some(i) => Some((v.queue[i].show_id, v.queue[i].playlist)),
        None => None,
    }
}

/// The library with an entry taken out of its round.
pub open spec fn entry_removed(
    v: replica::LibraryView,
    episode_id: Seq<char>,
    now: Seq<char>,
) -> replica::LibraryView {
    match entry_of(v, episode_id) {
        Some((_, playlist)) => {
            let kept = queue_without(v.queue, episode_id);
            replica::LibraryView {
                queue: rows_stamped(kept, playlist, now),
                queue_stamps: stamped(v.queue_stamps, playlist, now),
                ..v.touched((v.queue.len() - kept.len()) as nat).touched(
                    playlist_hits(kept, playlist),
                )
            }
        },
        None => v,
    }
}

impl Replica {
    /// The stored round, in its order.
    pub fn get_round_queue(&self) -> (r: Vec<QueueRow>)
        ensures
            r.deep_view() == sorting::in_order::<QueueRow>(self.deep_view().queue),
    {
        let ghost rows = self.queue.deep_view();
        let mut out: Vec<QueueRow> = Vec::new();
        let mut i: usize = 0;
        while i < self.queue.len()
            invariant
                i <= self.queue@.len(),
                rows == self.queue.deep_view(),
                out.deep_view() =~= rows.take(i as int),
            decreases self.queue.len() - i,
        {
            let q = &self.queue[i];
            let ghost before = out.deep_view();
            let row = QueueRow {
                episode_id: q.episode_id.clone(),
                show_id: q.show_id.clone(),
                play_order: q.play_order,
                state: q.state.clone(),
                playlist: q.playlist.clone(),
                updated_at: q.updated_at.clone(),
                dirty: q.dirty,
            };
            out.push(row);
            proof {
                assert(rows[i as int] == q.deep_view());
                assert(out.deep_view() =~= before.push(row.deep_view()));
            }
            i = i + 1;
        }
        assert(rows.take(i as int) =~= rows);
        sorting::stable_sort(out)
    }

    pub(crate) fn stamp_queue(&mut self, playlist: &str, updated_at: &str)
        ensures
            final(self).deep_view() == (replica::LibraryView {
                queue_stamps: stamped(old(self).deep_view().queue_stamps, playlist@, updated_at@),
                ..old(self).deep_view()
            }),
    {
        let ghost v = self.deep_view();
        let stamp = QueueStamp {
            playlist: playlist.to_owned(),
            updated_at: updated_at.to_owned(),
        };
        let ghost sv = stamp.deep_view();
        match tables::find(&self.queue_stamps, playlist) {
            Some(i) => {
                self.queue_stamps[i] = stamp;
                assert(self.queue_stamps.deep_view() =~= v.queue_stamps.update(i as int, sv));
            },
            None => {
                self.queue_stamps.push(stamp);
                assert(self.queue_stamps.deep_view() =~= v.queue_stamps.push(sv));
            },
        }
    }

    /// Replaces the stored round.
    pub fn save_round_queue(&mut self, entries: &[StoredEntry], updated_at: &str)
        requires
            distinct_entries(entries.deep_view()),
        ensures
            final(self).deep_view() == round_saved(
                old(self).deep_view(),
                entries.deep_view(),
                updated_at@,
            ),
            tables::distinct::<QueueRow>(final(self).deep_view().queue),
    {
        let ghost v = self.deep_view();
        let ghost all = entries.deep_view();
        let ghost want = queue_rows(all, updated_at@);
        let dropped: usize = self.queue.len();
        let mut rows: Vec<QueueRow> = Vec::new();
        let mut i: usize = 0;
        assert(all.take(0) =~= Seq::empty());
        while i < entries.len()
            invariant
                i <= entries@.len(),
                all == entries.deep_view(),
                want == queue_rows(all, updated_at@),
                rows.deep_view() =~= want.take(i as int),
                self.deep_view() == (replica::LibraryView {
                    queue_stamps: all_stamped(v.queue_stamps, all.take(i as int), updated_at@),
                    ..v
                }),
            decreases entries.len() - i,
        {
            let e = &entries[i];
            proof {
                assert(all[i as int] == e.deep_view());
                assert(all.take(i + 1).drop_last() =~= all.take(i as int));
                assert(all.take(i + 1).last() == e.deep_view());
            }
            let ghost before = rows.deep_view();
            let row = QueueRow {
                episode_id: e.0.clone(),
                show_id: e.1.clone(),
                play_order: e.2,
                state: e.3.clone(),
                playlist: e.4.clone(),
                updated_at: updated_at.to_owned(),
                dirty: 0,
            };
            rows.push(row);
            assert(rows.deep_view() =~= before.push(want[i as int]));
            self.stamp_queue(e.4.as_str(), updated_at);
            i = i + 1;
        }
        proof {
            assert(all.take(i as int) =~= all);
            assert(want.take(i as int) =~= want);
        }
        self.queue = rows;
        self.bump(dropped);
        self.bump(entries.len());
        assert forall|a: int, b: int|
            #![trigger want[a], want[b]]
            0 <= a < b < want.len() implies want[a].episode_id != want[b].episode_id by {
            assert(all[a].0 != all[b].0);
        }
    }

    fn stamp_rows(&mut self, playlist: &str, now: &str)
        ensures
            final(self).deep_view() == (replica::LibraryView {
                queue: rows_stamped(old(self).deep_view().queue, playlist@, now@),
                ..old(self).deep_view().touched(
                    playlist_hits(old(self).deep_view().queue, playlist@),
                )
            }),
    {
        let ghost v = self.deep_view();
        let ghost want = rows_stamped(v.queue, playlist@, now@);
        let mut rows: usize = 0;
        let mut i: usize = 0;
        while i < self.queue.len()
            invariant
                i <= self.queue@.len(),
                rows <= i,
                want == rows_stamped(v.queue, playlist@, now@),
                rows == playlist_hits(v.queue.take(i as int), playlist@),
                self.queue@.len() == v.queue.len(),
                forall|j: int| 0 <= j < i ==> (#[trigger] self.queue@[j]).deep_view() == want[j],
                forall|j: int|
                    i <= j < v.queue.len() ==> (#[trigger] self.queue@[j]).deep_view()
                        == v.queue[j],
                self.deep_view() == (replica::LibraryView { queue: self.queue.deep_view(), ..v }),
            decreases self.queue.len() - i,
        {
            proof {
                assert(self.queue@[i as int].deep_view() == v.queue[i as int]);
                assert(v.queue.take(i + 1).drop_last() =~= v.queue.take(i as int));
            }
            if text::same_text(self.queue[i].playlist.as_str(), playlist) {
                self.queue[i].updated_at = now.to_owned();
                self.queue[i].dirty = 0;
                rows = rows + 1;
            }
            assert(self.queue@[i as int].deep_view() == want[i as int]);
            i = i + 1;
        }
        proof {
            assert(self.queue.deep_view() =~= want);
            assert(v.queue.take(i as int) =~= v.queue);
        }
        self.bump(rows);
    }

    /// Sets the state of an entry of the round, and stamps its playlist's rows.
    pub fn update_round_entry_state_at(
        &mut self,
        episode_id: &str,
        state: &str,
        playlist: &str,
        now: &str,
    )
        ensures
            final(self).deep_view() == entry_in_state(
                old(self).deep_view(),
                episode_id@,
                state@,
                playlist@,
                now@,
            ),
    {
        let rows: usize = tables::count_hits(&self.queue, episode_id);
        let ghost v = self.deep_view();
        let ghost want = rows_in_state(v.queue, episode_id@, state@, now@);
        let mut i: usize = 0;
        while i < self.queue.len()
            invariant
                i <= self.queue@.len(),
                want == rows_in_state(v.queue, episode_id@, state@, now@),
                self.queue@.len() == v.queue.len(),
                forall|j: int| 0 <= j < i ==> (#[trigger] self.queue@[j]).deep_view() == want[j],
                forall|j: int|
                    i <= j < v.queue.len() ==> (#[trigger] self.queue@[j]).deep_view()
                        == v.queue[j],
                self.deep_view() == (replica::LibraryView { queue: self.queue.deep_view(), ..v }),
            decreases self.queue.len() - i,
        {
            assert(self.queue@[i as int].deep_view() == v.queue[i as int]);
            if self.queue[i].has_key(episode_id) {
                self.queue[i].state = state.to_owned();
                self.queue[i].updated_at = now.to_owned();
                self.queue[i].dirty = 0;
            }
            assert(self.queue@[i as int].deep_view() == want[i as int]);
            i = i + 1;
        }
        assert(self.queue.deep_view() =~= want);
        self.bump(rows);
        self.stamp_rows(playlist, now);
    }

    /// Sets the state of an entry now. See
    /// [`Replica::update_round_entry_state_at`].
    pub fn update_round_entry_state(&mut self, episode_id: &str, state: &str, playlist: &str)
        ensures
            exists|now: Seq<char>|
                final(self).deep_view() == #[trigger] entry_in_state(
                    old(self).deep_view(),
                    episode_id@,
                    state@,
                    playlist@,
                    now,
                ),
    {
        let now = clock::now();
        self.update_round_entry_state_at(episode_id, state, playlist, now.as_str());
    }

    /// Takes an entry out of the stored round and stamps its playlist. Returns
    /// the entry's show and playlist, or nothing where the round has no such
    /// entry.
    pub fn remove_round_entry_at(&mut self, episode_id: &str, now: &str) -> (r: Option<
        (String, String),
    >)
        ensures
            r.deep_view() == entry_of(old(self).deep_view(), episode_id@),
            final(self).deep_view() == entry_removed(old(self).deep_view(), episode_id@, now@),
    {
        let ghost v = self.deep_view();
        let at: usize = match tables::find(&self.queue, episode_id) {
            Some(i) => i,
            None => {
                return None;
            },
        };
        assert(v.queue[at as int] == self.queue@[at as int].deep_view());
        let show_id = self.queue[at].show_id.clone();
        let playlist = self.queue[at].playlist.clone();
        let mut kept: Vec<QueueRow> = Vec::new();
        let mut i: usize = 0;
        assert(kept.deep_view() =~= queue_without(v.queue.take(0), episode_id@));
        while i < self.queue.len()
            invariant
                i <= self.queue@.len(),
                kept@.len() <= i,
                v == self.deep_view(),
                kept.deep_view() == queue_without(v.queue.take(i as int), episode_id@),
            decreases self.queue.len() - i,
        {
            let q = &self.queue[i];
            proof {
                assert(v.queue[i as int] == q.deep_view());
                assert(v.queue.take(i + 1).drop_last() =~= v.queue.take(i as int));
            }
            if !q.has_key(episode_id) {
                let ghost before = kept.deep_view();
                let row = QueueRow {
                    episode_id: q.episode_id.clone(),
                    show_id: q.show_id.clone(),
                    play_order: q.play_order,
                    state: q.state.clone(),
                    playlist: q.playlist.clone(),
                    updated_at: q.updated_at.clone(),
                    dirty: q.dirty,
                };
                kept.push(row);
                assert(kept.deep_view() =~= before.push(row.deep_view()));
            }
            i = i + 1;
        }
        assert(v.queue.take(i as int) =~= v.queue);
        let dropped: usize = self.queue.len() - kept.len();
        self.queue = kept;
        self.bump(dropped);
        self.stamp_rows(playlist.as_str(), now);
        self.stamp_queue(playlist.as_str(), now);
        Some((show_id, playlist))
    }

    /// Takes an entry out of the stored round now. See
    /// [`Replica::remove_round_entry_at`].
    pub fn remove_round_entry(&mut self, episode_id: &str) -> (r: Option<(String, String)>)
        ensures
            r.deep_view() == entry_of(old(self).deep_view(), episode_id@),
            exists|now: Seq<char>|
                final(self).deep_view() == #[trigger] entry_removed(
                    old(self).deep_view(),
                    episode_id@,
                    now,
                ),
    {
        let now = clock::now();
        self.remove_round_entry_at(episode_id, now.as_str())
    }
}

} // verus!
