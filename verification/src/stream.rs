//! The followers of the status: each gets the frame that it was given first, then
//! always the latest one. A follower that is slow misses frames, never the last.

use vstd::prelude::*;
use vstd::utf8::*;

verus! {

pub const KEEPALIVE: &'static str = ": keepalive\n\n";

/// One follower: the frame that waits for it, and what it has not read of the
/// frame before.
#[derive(Debug, Clone)]
pub struct StatusStream {
    id: u64,
    next: Option<String>,
    buffer: Vec<u8>,
    offset: usize,
}

#[verifier::ext_equal]
pub struct StreamView {
    pub id: u64,
    pub next: Option<Seq<char>>,
    pub rest: Seq<u8>,
}

impl DeepView for StatusStream {
    type V = StreamView;

    closed spec fn deep_view(&self) -> StreamView {
        StreamView {
            id: self.id,
            next: self.next.deep_view(),
            rest: if self.offset < self.buffer@.len() {
                self.buffer@.skip(self.offset as int)
            } else {
                Seq::empty()
            },
        }
    }
}

/// What a follower can read now: the rest of a frame, or else the next frame.
pub open spec fn readable(s: StreamView) -> Seq<u8> {
    if s.rest.len() > 0 {
        s.rest
    } else {
        match s.next {
            Some(f) => encode_utf8(f),
            None => Seq::empty(),
        }
    }
}

/// How many bytes a read of at most `limit` takes.
pub open spec fn taken(s: StreamView, limit: nat) -> nat {
    if limit < readable(s).len() {
        limit
    } else {
        readable(s).len()
    }
}

/// A follower after a read of at most `limit` bytes, which is not zero.
pub open spec fn after_read(s: StreamView, limit: nat) -> StreamView {
    StreamView {
        next: if s.rest.len() > 0 {
            s.next
        } else {
            None
        },
        rest: readable(s).skip(taken(s, limit) as int),
        ..s
    }
}

impl StatusStream {
    /// A follower with its first frame.
    fn new(id: u64, initial: String) -> (r: StatusStream)
        ensures
            r.deep_view() == (StreamView { id, next: Some(initial@), rest: Seq::empty() }),
    {
        StatusStream { id, next: Some(initial), buffer: Vec::new(), offset: 0 }
    }

    /// Puts a frame in the place of the one that waits.
    pub fn replace(&mut self, frame: String)
        ensures
            final(self).deep_view() == (StreamView {
                next: Some(frame@),
                ..old(self).deep_view()
            }),
    {
        self.next = Some(frame);
    }

    /// Nothing came for a while: a frame that says nothing is sent, unless one
    /// waits.
    pub fn keep_alive(&mut self)
        ensures
            final(self).deep_view() == if old(self).deep_view().next is None {
                StreamView { next: Some(KEEPALIVE@), ..old(self).deep_view() }
            } else {
                old(self).deep_view()
            },
    {
        if self.next.is_none() {
            self.next = Some(KEEPALIVE.to_owned());
        }
    }

    /// Reads at most `limit` bytes. `None` says that nothing is there, and the
    /// reader has to wait.
    pub fn read(&mut self, limit: usize) -> (r: Option<Vec<u8>>)
        ensures
            limit == 0 ==> final(self).deep_view() == old(self).deep_view() && r is Some
                && r->0@.len() == 0,
            limit > 0 ==> final(self).deep_view() == after_read(
                old(self).deep_view(),
                limit as nat,
            ),
            limit > 0 ==> match r {
                Some(out) => out@.len() > 0 && out@ == readable(old(self).deep_view()).take(
                    taken(old(self).deep_view(), limit as nat) as int,
                ),
                None => readable(old(self).deep_view()).len() == 0,
            },
    {
        if limit == 0 {
            return Some(Vec::new());
        }
        let ghost before = self.deep_view();
        if self.offset >= self.buffer.len() {
            let mut bytes: Vec<u8> = Vec::new();
            match &self.next {
                Some(frame) => {
                    let all = frame.as_str().as_bytes();
                    bytes.extend_from_slice(all);
                    assert(bytes@ =~= encode_utf8(frame@));
                },
                None => {},
            }
            self.next = None;
            self.buffer = bytes;
            self.offset = 0;
        }
        let ghost there = readable(before);
        assert(self.offset <= self.buffer@.len());
        assert(self.buffer@.skip(self.offset as int) =~= there);
        if self.offset >= self.buffer.len() {
            assert(there.skip(0) =~= there);
            assert(self.deep_view() =~= after_read(before, limit as nat));
            return None;
        }
        let left: usize = self.buffer.len() - self.offset;
        let n: usize = if limit < left {
            limit
        } else {
            left
        };
        let mut out: Vec<u8> = Vec::new();
        let mut i: usize = 0;
        while i < n
            invariant
                i <= n,
                self.offset + n <= self.buffer.len(),
                out@ == self.buffer@.subrange(self.offset as int, self.offset + i),
            decreases n - i,
        {
            out.push(self.buffer[self.offset + i]);
            assert(out@ =~= self.buffer@.subrange(self.offset as int, self.offset + i + 1));
            i = i + 1;
        }
        assert(out@ =~= there.take(n as int));
        self.offset = self.offset + n;
        assert(there.skip(n as int) =~= self.buffer@.skip(self.offset as int));
        assert(self.deep_view() =~= after_read(before, limit as nat));
        Some(out)
    }
}

/// All the followers.
#[derive(Debug, Clone)]
pub struct StatusBroadcaster {
    streams: Vec<StatusStream>,
    next_id: u64,
}

#[verifier::ext_equal]
pub struct BroadcasterView {
    pub streams: Seq<StreamView>,
    pub next_id: u64,
}

impl DeepView for StatusBroadcaster {
    type V = BroadcasterView;

    closed spec fn deep_view(&self) -> BroadcasterView {
        BroadcasterView { streams: self.streams.deep_view(), next_id: self.next_id }
    }
}

/// The place of the first follower with the id.
pub open spec fn stream_at(streams: Seq<StreamView>, id: u64) -> Option<int>
    decreases streams.len(),
{
    if streams.len() == 0 {
        None
    } else {
        match stream_at(streams.drop_last(), id) {
            Some(i) => Some(i),
            None => if streams.last().id == id {
                Some(streams.len() - 1)
            } else {
                None
            },
        }
    }
}

/// The followers without those that have the id.
pub open spec fn without(streams: Seq<StreamView>, id: u64) -> Seq<StreamView>
    decreases streams.len(),
{
    if streams.len() == 0 {
        streams
    } else if streams.last().id == id {
        without(streams.drop_last(), id)
    } else {
        without(streams.drop_last(), id).push(streams.last())
    }
}

/// The followers after a frame was sent to all of them.
pub open spec fn all_given(streams: Seq<StreamView>, frame: Seq<char>) -> Seq<StreamView> {
    streams.map_values(|s: StreamView| StreamView { next: Some(frame), ..s })
}

impl Default for StatusBroadcaster {
    fn default() -> (r: StatusBroadcaster)
        ensures
            r.deep_view() == (BroadcasterView { streams: Seq::empty(), next_id: 0 }),
    {
        let r = StatusBroadcaster { streams: Vec::new(), next_id: 0 };
        assert(r.streams.deep_view() =~= Seq::empty());
        r
    }
}

impl StatusBroadcaster {
    /// Whether one more follower can be taken on.
    pub fn has_room(&self) -> (r: bool)
        ensures
            r == (self.deep_view().next_id < u64::MAX),
    {
        self.next_id < u64::MAX
    }

    /// Adds a follower with its first frame, and says by which id it is known.
    pub fn subscribe(&mut self, initial: String) -> (r: u64)
        requires
            old(self).deep_view().next_id < u64::MAX,
        ensures
            r == old(self).deep_view().next_id,
            final(self).deep_view() == (BroadcasterView {
                streams: old(self).deep_view().streams.push(
                    StreamView { id: r, next: Some(initial@), rest: Seq::empty() },
                ),
                next_id: (old(self).deep_view().next_id + 1) as u64,
            }),
    {
        let id: u64 = self.next_id;
        let ghost before = self.streams.deep_view();
        let s = StatusStream::new(id, initial);
        self.streams.push(s);
        assert(self.streams.deep_view() =~= before.push(s.deep_view()));
        self.next_id = id + 1;
        id
    }

    /// Forgets a follower.
    pub fn unsubscribe(&mut self, id: u64)
        ensures
            final(self).deep_view() == (BroadcasterView {
                streams: without(old(self).deep_view().streams, id),
                ..old(self).deep_view()
            }),
    {
        let ghost views = self.streams.deep_view();
        let mut kept: Vec<StatusStream> = Vec::new();
        let mut left: Vec<StatusStream> = Vec::new();
        std::mem::swap(&mut left, &mut self.streams);
        let ghost all = left@;
        assert(left.deep_view() == views);
        let mut i: usize = 0;
        let count: usize = left.len();
        assert(kept.deep_view() =~= without(views.take(0), id));
        while i < count
            invariant
                i <= count,
                count == all.len(),
                left@ == all.skip(i as int),
                views.len() == all.len(),
                forall|j: int| 0 <= j < all.len() ==> #[trigger] views[j] == all[j].deep_view(),
                kept.deep_view() == without(views.take(i as int), id),
            decreases count - i,
        {
            let s = left.remove(0);
            proof {
                assert(s == all[i as int]);
                assert(left@ =~= all.skip(i + 1));
                assert(views[i as int] == s.deep_view());
                assert(views.take(i + 1).drop_last() =~= views.take(i as int));
                assert(views.take(i + 1).last() == views[i as int]);
            }
            if s.id != id {
                let ghost before = kept.deep_view();
                kept.push(s);
                assert(kept.deep_view() =~= before.push(views[i as int]));
            }
            i = i + 1;
        }
        assert(views.take(i as int) =~= views);
        self.streams = kept;
    }

    /// Sends a frame to every follower, in place of any that still waits.
    pub fn broadcast(&mut self, frame: String)
        ensures
            final(self).deep_view() == (BroadcasterView {
                streams: all_given(old(self).deep_view().streams, frame@),
                ..old(self).deep_view()
            }),
    {
        let ghost views = self.streams.deep_view();
        let ghost id = self.next_id;
        let mut i: usize = 0;
        while i < self.streams.len()
            invariant
                i <= self.streams@.len(),
                self.streams@.len() == views.len(),
                self.next_id == id,
                forall|j: int|
                    0 <= j < i ==> (#[trigger] self.streams@[j]).deep_view() == all_given(
                        views,
                        frame@,
                    )[j],
                forall|j: int|
                    i <= j < views.len() ==> (#[trigger] self.streams@[j]).deep_view() == views[j],
            decreases self.streams.len() - i,
        {
            self.streams[i].replace(frame.clone());
            i = i + 1;
        }
        assert(self.streams.deep_view() =~= all_given(views, frame@));
    }

    fn find(&self, id: u64) -> (r: Option<usize>)
        ensures
            match (r, stream_at(self.deep_view().streams, id)) {
                (Some(i), Some(j)) => i == j && i < self.streams@.len(),
                (None, None) => true,
                _ => false,
            },
    {
        let ghost views = self.streams.deep_view();
        let mut found: Option<usize> = None;
        let mut i: usize = 0;
        while i < self.streams.len()
            invariant
                i <= self.streams@.len(),
                views == self.streams.deep_view(),
                match (found, stream_at(views.take(i as int), id)) {
                    (Some(a), Some(b)) => a == b && a < i,
                    (None, None) => true,
                    _ => false,
                },
            decreases self.streams.len() - i,
        {
            proof {
                assert(views[i as int] == self.streams@[i as int].deep_view());
                assert(views.take(i + 1).drop_last() =~= views.take(i as int));
                assert(views.take(i + 1).last() == views[i as int]);
            }
            if found.is_none() && self.streams[i].id == id {
                found = Some(i);
            }
            i = i + 1;
        }
        assert(views.take(i as int) =~= views);
        found
    }

    /// Reads at most `limit` bytes for a follower. `None` says that nothing is
    /// there; so does it for an id that no follower has.
    pub fn read(&mut self, id: u64, limit: usize) -> (r: Option<Vec<u8>>)
        requires
            limit > 0,
        ensures
            match stream_at(old(self).deep_view().streams, id) {
                Some(i) => {
                    let s = old(self).deep_view().streams[i];
                    &&& final(self).deep_view() == (BroadcasterView {
                        streams: old(self).deep_view().streams.update(
                            i,
                            after_read(s, limit as nat),
                        ),
                        ..old(self).deep_view()
                    })
                    &&& match r {
                        Some(out) => out@.len() > 0 && out@ == readable(s).take(
                            taken(s, limit as nat) as int,
                        ),
                        None => readable(s).len() == 0,
                    }
                },
                None => final(self).deep_view() == old(self).deep_view() && r is None,
            },
    {
        let ghost views = self.streams.deep_view();
        match self.find(id) {
            Some(i) => {
                assert(views[i as int] == self.streams@[i as int].deep_view());
                let r = self.streams[i].read(limit);
                assert(self.streams.deep_view() =~= views.update(
                    i as int,
                    after_read(views[i as int], limit as nat),
                ));
                r
            },
            None => None,
        }
    }

    /// Nothing came for a while for a follower.
    pub fn keep_alive(&mut self, id: u64)
        ensures
            match stream_at(old(self).deep_view().streams, id) {
                Some(i) => final(self).deep_view() == (BroadcasterView {
                    streams: old(self).deep_view().streams.update(
                        i,
                        StreamView {
                            next: match old(self).deep_view().streams[i].next {
                                Some(f) => Some(f),
                                None => Some(KEEPALIVE@),
                            },
                            ..old(self).deep_view().streams[i]
                        },
                    ),
                    ..old(self).deep_view()
                }),
                None => final(self).deep_view() == old(self).deep_view(),
            },
    {
        let ghost views = self.streams.deep_view();
        match self.find(id) {
            Some(i) => {
                assert(views[i as int] == self.streams@[i as int].deep_view());
                self.streams[i].keep_alive();
                assert(self.streams.deep_view() =~= views.update(
                    i as int,
                    StreamView {
                        next: match views[i as int].next {
                            Some(f) => Some(f),
                            None => Some(KEEPALIVE@),
                        },
                        ..views[i as int]
                    },
                ));
            },
            None => {},
        }
    }
}

/// How long to wait before the next frame, that many milliseconds after the last,
/// so that two are never closer than `least`.
pub fn pause_before_next(elapsed: u64, least: u64) -> (r: u64)
    ensures
        elapsed + r >= least,
        r > 0 ==> elapsed + r == least,
{
    if elapsed < least {
        least - elapsed
    } else {
        0
    }
}

// ── laws ────────────────────────────────────────────────────────────────

/// Of several frames that were sent while a follower did not read, it gets the
/// last.
pub proof fn law_latest_frame_wins(streams: Seq<StreamView>, stale: Seq<char>, latest: Seq<char>)
    ensures
        all_given(all_given(streams, stale), latest) == all_given(streams, latest),
        forall|i: int|
            0 <= i < streams.len() && streams[i].rest.len() == 0 ==> readable(
                #[trigger] all_given(streams, latest)[i],
            ) == encode_utf8(latest),
{
    assert(all_given(all_given(streams, stale), latest) =~= all_given(streams, latest));
}

/// A frame that a follower has begun to read is read to its end, whatever is sent
/// meanwhile.
pub proof fn law_begun_frame_is_finished(s: StreamView, frame: Seq<char>)
    requires
        s.rest.len() > 0,
    ensures
        readable(StreamView { next: Some(frame), ..s }) == readable(s),
{
}

/// Reading loses nothing: what was taken and what is left make up what was there.
pub proof fn law_reading_loses_nothing(s: StreamView, limit: nat)
    requires
        limit > 0,
    ensures
        readable(s).take(taken(s, limit) as int) + after_read(s, limit).rest == readable(s),
{
    assert(readable(s).take(taken(s, limit) as int) + after_read(s, limit).rest =~= readable(s));
}

} // verus!
