//! The rows of the shows database, and how a row is found by its key.

use vstd::prelude::*;

use crate::engine;
use crate::engine::Episode;
use crate::sorting::Sortable;
use crate::text;

verus! {

/// A row that is known by a key.
pub trait Keyed: DeepView + Sized {
    spec fn key(v: Self::V) -> Seq<char>;

    fn has_key(&self, key: &str) -> (r: bool)
        ensures
            r == (Self::key(self.deep_view()) == key@),
    ;
}

/// How many rows have the key.
pub open spec fn hits<T: Keyed>(rows: Seq<T::V>, key: Seq<char>) -> nat
    decreases rows.len(),
{
    if rows.len() == 0 {
        0
    } else {
        hits::<T>(rows.drop_last(), key) + if T::key(rows.last()) == key {
            1nat
        } else {
            0nat
        }
    }
}

/// The place of the first row with the key.
pub open spec fn place<T: Keyed>(rows: Seq<T::V>, key: Seq<char>) -> Option<int>
    decreases rows.len(),
{
    if rows.len() == 0 {
        None
    } else {
        match place::<T>(rows.drop_last(), key) {
            Some(i) => Some(i),
            None => if T::key(rows.last()) == key {
                Some(rows.len() - 1)
            } else {
                None
            },
        }
    }
}

/// No two rows have the same key.
pub open spec fn distinct<T: Keyed>(rows: Seq<T::V>) -> bool {
    forall|i: int, j: int|
        #![trigger rows[i], rows[j]]
        0 <= i < j < rows.len() ==> T::key(rows[i]) != T::key(rows[j])
}

pub proof fn lemma_place<T: Keyed>(rows: Seq<T::V>, key: Seq<char>)
    ensures
        place::<T>(rows, key) matches Some(i) ==> 0 <= i < rows.len() && T::key(rows[i]) == key
            && forall|j: int| 0 <= j < i ==> T::key(#[trigger] rows[j]) != key,
        place::<T>(rows, key) is None ==> forall|j: int|
            0 <= j < rows.len() ==> T::key(#[trigger] rows[j]) != key,
    decreases rows.len(),
{
    if rows.len() > 0 {
        let front = rows.drop_last();
        lemma_place::<T>(front, key);
        match place::<T>(front, key) {
            Some(i) => {
                assert(front[i] == rows[i]);
                assert forall|j: int| 0 <= j < i implies T::key(#[trigger] rows[j]) != key by {
                    assert(T::key(front[j]) != key);
                }
            },
            None => {
                assert forall|j: int| 0 <= j < rows.len() - 1 implies T::key(#[trigger] rows[j])
                    != key by {
                    assert(T::key(front[j]) != key);
                }
            },
        }
    }
}

/// The first place with a key is fixed by what it is.
pub proof fn lemma_place_is<T: Keyed>(rows: Seq<T::V>, key: Seq<char>, i: int)
    requires
        0 <= i < rows.len(),
        T::key(rows[i]) == key,
        forall|j: int| 0 <= j < i ==> T::key(#[trigger] rows[j]) != key,
    ensures
        place::<T>(rows, key) == Some(i),
{
    lemma_place::<T>(rows, key);
    match place::<T>(rows, key) {
        Some(k) => {
            if k < i {
                assert(T::key(rows[k]) != key);
            }
            if i < k {
                assert(T::key(rows[i]) != key);
            }
        },
        None => {
            assert(T::key(rows[i]) != key);
        },
    }
}

/// Rows with the same keys have the same first place for a key.
pub proof fn lemma_place_by_keys<T: Keyed>(a: Seq<T::V>, b: Seq<T::V>, key: Seq<char>)
    requires
        a.len() == b.len(),
        forall|i: int| 0 <= i < a.len() ==> T::key(#[trigger] b[i]) == T::key(a[i]),
    ensures
        place::<T>(b, key) == place::<T>(a, key),
    decreases a.len(),
{
    if a.len() > 0 {
        let x = a.drop_last();
        let y = b.drop_last();
        assert forall|i: int| 0 <= i < x.len() implies T::key(#[trigger] y[i]) == T::key(x[i]) by {
            assert(T::key(b[i]) == T::key(a[i]));
        }
        lemma_place_by_keys::<T>(x, y, key);
        assert(T::key(b[b.len() - 1]) == T::key(a[a.len() - 1]));
    }
}

pub proof fn lemma_hits_bound<T: Keyed>(rows: Seq<T::V>, key: Seq<char>)
    ensures
        hits::<T>(rows, key) <= rows.len(),
        hits::<T>(rows, key) == 0 <==> place::<T>(rows, key) is None,
    decreases rows.len(),
{
    if rows.len() > 0 {
        lemma_hits_bound::<T>(rows.drop_last(), key);
    }
}

/// Finds the first row with the key.
pub fn find<T: Keyed>(rows: &Vec<T>, key: &str) -> (r: Option<usize>)
    ensures
        r matches Some(i) ==> i < rows@.len() && place::<T>(rows.deep_view(), key@) == Some(
            i as int,
        ),
        r is None ==> place::<T>(rows.deep_view(), key@) is None,
{
    let ghost views = rows.deep_view();
    let mut i: usize = 0;
    while i < rows.len()
        invariant
            i <= rows@.len(),
            views == rows.deep_view(),
            forall|j: int| 0 <= j < i ==> T::key(#[trigger] views[j]) != key@,
        decreases rows.len() - i,
    {
        assert(views[i as int] == rows@[i as int].deep_view());
        if rows[i].has_key(key) {
            proof {
                lemma_place_is::<T>(views, key@, i as int);
            }
            return Some(i);
        }
        i = i + 1;
    }
    proof {
        lemma_place::<T>(views, key@);
    }
    None
}

/// Counts the rows with the key.
pub fn count_hits<T: Keyed>(rows: &Vec<T>, key: &str) -> (r: usize)
    ensures
        r == hits::<T>(rows.deep_view(), key@),
        r <= rows@.len(),
{
    let ghost views = rows.deep_view();
    let mut n: usize = 0;
    let mut i: usize = 0;
    while i < rows.len()
        invariant
            i <= rows@.len(),
            n <= i,
            views == rows.deep_view(),
            n == hits::<T>(views.take(i as int), key@),
        decreases rows.len() - i,
    {
        proof {
            assert(views[i as int] == rows@[i as int].deep_view());
            assert(views.take(i + 1).drop_last() =~= views.take(i as int));
        }
        if rows[i].has_key(key) {
            n = n + 1;
        }
        i = i + 1;
    }
    assert(views.take(i as int) =~= views);
    n
}

// ── rows ────────────────────────────────────────────────────────────────

#[derive(Debug, Clone, PartialEq)]
pub struct ShowRow {
    pub id: String,
    pub playlist: String,
    pub name: String,
    pub root_path: String,
    pub date_added: Option<String>,
    pub removed_at: Option<String>,
    pub updated_at: String,
}

#[verifier::ext_equal]
pub struct ShowRowView {
    pub id: Seq<char>,
    pub playlist: Seq<char>,
    pub name: Seq<char>,
    pub root_path: Seq<char>,
    pub date_added: Option<Seq<char>>,
    pub removed_at: Option<Seq<char>>,
    pub updated_at: Seq<char>,
}

impl DeepView for ShowRow {
    type V = ShowRowView;

    open spec fn deep_view(&self) -> ShowRowView {
        ShowRowView {
            id: self.id@,
            playlist: self.playlist@,
            name: self.name@,
            root_path: self.root_path@,
            date_added: self.date_added.deep_view(),
            removed_at: self.removed_at.deep_view(),
            updated_at: self.updated_at@,
        }
    }
}

impl Keyed for ShowRow {
    open spec fn key(v: ShowRowView) -> Seq<char> {
        v.id
    }

    fn has_key(&self, key: &str) -> (r: bool) {
        text::same_text(self.id.as_str(), key)
    }
}

#[derive(Debug, Clone, PartialEq)]
pub struct EpisodeRow {
    pub id: String,
    pub show_id: String,
    pub relative_path: String,
    pub position: i64,
    pub watched_at: Option<String>,
    pub resume_pos: Option<u64>,
    pub updated_at: String,
}

#[verifier::ext_equal]
pub struct EpisodeRowView {
    pub id: Seq<char>,
    pub show_id: Seq<char>,
    pub relative_path: Seq<char>,
    pub position: i64,
    pub watched_at: Option<Seq<char>>,
    pub resume_pos: Option<u64>,
    pub updated_at: Seq<char>,
}

impl DeepView for EpisodeRow {
    type V = EpisodeRowView;

    open spec fn deep_view(&self) -> EpisodeRowView {
        EpisodeRowView {
            id: self.id@,
            show_id: self.show_id@,
            relative_path: self.relative_path@,
            position: self.position,
            watched_at: self.watched_at.deep_view(),
            resume_pos: self.resume_pos,
            updated_at: self.updated_at@,
        }
    }
}

impl Keyed for EpisodeRow {
    open spec fn key(v: EpisodeRowView) -> Seq<char> {
        v.id
    }

    fn has_key(&self, key: &str) -> (r: bool) {
        text::same_text(self.id.as_str(), key)
    }
}

#[derive(Debug, Clone, PartialEq)]
pub struct HistoryEntry {
    pub id: String,
    pub show_id: String,
    pub episode_id: String,
    pub relative_path: Option<String>,
    pub played_at: String,
}

#[verifier::ext_equal]
pub struct HistoryEntryView {
    pub id: Seq<char>,
    pub show_id: Seq<char>,
    pub episode_id: Seq<char>,
    pub relative_path: Option<Seq<char>>,
    pub played_at: Seq<char>,
}

impl DeepView for HistoryEntry {
    type V = HistoryEntryView;

    open spec fn deep_view(&self) -> HistoryEntryView {
        HistoryEntryView {
            id: self.id@,
            show_id: self.show_id@,
            episode_id: self.episode_id@,
            relative_path: self.relative_path.deep_view(),
            played_at: self.played_at@,
        }
    }
}

/// An entry of the stored round. `state` is one of `pending`, `playing`,
/// `watched` and `deferred`.
#[derive(Debug, Clone, PartialEq)]
pub struct QueueRow {
    pub episode_id: String,
    pub show_id: String,
    pub play_order: i32,
    pub state: String,
    pub playlist: String,
    pub updated_at: String,
    pub dirty: i32,
}

#[verifier::ext_equal]
pub struct QueueRowView {
    pub episode_id: Seq<char>,
    pub show_id: Seq<char>,
    pub play_order: i32,
    pub state: Seq<char>,
    pub playlist: Seq<char>,
    pub updated_at: Seq<char>,
    pub dirty: i32,
}

impl DeepView for QueueRow {
    type V = QueueRowView;

    open spec fn deep_view(&self) -> QueueRowView {
        QueueRowView {
            episode_id: self.episode_id@,
            show_id: self.show_id@,
            play_order: self.play_order,
            state: self.state@,
            playlist: self.playlist@,
            updated_at: self.updated_at@,
            dirty: self.dirty,
        }
    }
}

impl Keyed for QueueRow {
    open spec fn key(v: QueueRowView) -> Seq<char> {
        v.episode_id
    }

    fn has_key(&self, key: &str) -> (r: bool) {
        text::same_text(self.episode_id.as_str(), key)
    }
}

impl Sortable for QueueRow {
    /// By place in the round.
    open spec fn leq(a: QueueRowView, b: QueueRowView) -> bool {
        a.play_order <= b.play_order
    }

    proof fn lemma_total(a: QueueRowView, b: QueueRowView) {
    }

    proof fn lemma_transitive(a: QueueRowView, b: QueueRowView, c: QueueRowView) {
    }

    fn at_most(&self, other: &Self) -> (r: bool) {
        self.play_order <= other.play_order
    }
}

#[derive(Debug, Clone, PartialEq)]
pub struct PreferenceRow {
    pub episode_id: String,
    pub subtitle_track: Option<String>,
    pub audio_track: Option<String>,
    pub updated_at: String,
}

#[verifier::ext_equal]
pub struct PreferenceRowView {
    pub episode_id: Seq<char>,
    pub subtitle_track: Option<Seq<char>>,
    pub audio_track: Option<Seq<char>>,
    pub updated_at: Seq<char>,
}

impl DeepView for PreferenceRow {
    type V = PreferenceRowView;

    open spec fn deep_view(&self) -> PreferenceRowView {
        PreferenceRowView {
            episode_id: self.episode_id@,
            subtitle_track: self.subtitle_track.deep_view(),
            audio_track: self.audio_track.deep_view(),
            updated_at: self.updated_at@,
        }
    }
}

impl Keyed for PreferenceRow {
    open spec fn key(v: PreferenceRowView) -> Seq<char> {
        v.episode_id
    }

    fn has_key(&self, key: &str) -> (r: bool) {
        text::same_text(self.episode_id.as_str(), key)
    }
}

/// When a playlist's stored round last changed.
#[derive(Debug, Clone, PartialEq)]
pub struct QueueStamp {
    pub playlist: String,
    pub updated_at: String,
}

#[verifier::ext_equal]
pub struct QueueStampView {
    pub playlist: Seq<char>,
    pub updated_at: Seq<char>,
}

impl DeepView for QueueStamp {
    type V = QueueStampView;

    open spec fn deep_view(&self) -> QueueStampView {
        QueueStampView { playlist: self.playlist@, updated_at: self.updated_at@ }
    }
}

impl Keyed for QueueStamp {
    open spec fn key(v: QueueStampView) -> Seq<char> {
        v.playlist
    }

    fn has_key(&self, key: &str) -> (r: bool) {
        text::same_text(self.playlist.as_str(), key)
    }
}

impl Sortable for Episode {
    /// By position in the show's queue.
    open spec fn leq(a: engine::EpisodeView, b: engine::EpisodeView) -> bool {
        a.position <= b.position
    }

    proof fn lemma_total(a: engine::EpisodeView, b: engine::EpisodeView) {
    }

    proof fn lemma_transitive(
        a: engine::EpisodeView,
        b: engine::EpisodeView,
        c: engine::EpisodeView,
    ) {
    }

    fn at_most(&self, other: &Self) -> (r: bool) {
        self.position <= other.position
    }
}

} // verus!
