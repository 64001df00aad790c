//! The records that are exchanged with the origin.

use vstd::prelude::*;

verus! {

/// An episode of an exchanged show.
#[derive(Debug, Clone, PartialEq)]
pub struct LibraryEpisode {
    pub id: String,
    pub relative_path: String,
    pub position: i64,
    pub updated_at: String,
    pub watched_at: Option<String>,
    pub resume_pos: Option<u64>,
}

#[verifier::ext_equal]
pub struct LibraryEpisodeView {
    pub id: Seq<char>,
    pub relative_path: Seq<char>,
    pub position: i64,
    pub updated_at: Seq<char>,
    pub watched_at: Option<Seq<char>>,
    pub resume_pos: Option<u64>,
}

impl DeepView for LibraryEpisode {
    type V = LibraryEpisodeView;

    open spec fn deep_view(&self) -> LibraryEpisodeView {
        LibraryEpisodeView {
            id: self.id@,
            relative_path: self.relative_path@,
            position: self.position,
            updated_at: self.updated_at@,
            watched_at: self.watched_at.deep_view(),
            resume_pos: self.resume_pos,
        }
    }
}

/// A show with its episodes, retired ones among them.
#[derive(Debug, Clone, PartialEq)]
pub struct LibraryShow {
    pub id: String,
    pub playlist: String,
    pub name: String,
    pub root_path: String,
    pub updated_at: String,
    pub date_added: Option<String>,
    pub removed_at: Option<String>,
    pub episodes: Vec<LibraryEpisode>,
}

#[verifier::ext_equal]
pub struct LibraryShowView {
    pub id: Seq<char>,
    pub playlist: Seq<char>,
    pub name: Seq<char>,
    pub root_path: Seq<char>,
    pub updated_at: Seq<char>,
    pub date_added: Option<Seq<char>>,
    pub removed_at: Option<Seq<char>>,
    pub episodes: Seq<LibraryEpisodeView>,
}

impl DeepView for LibraryShow {
    type V = LibraryShowView;

    open spec fn deep_view(&self) -> LibraryShowView {
        LibraryShowView {
            id: self.id@,
            playlist: self.playlist@,
            name: self.name@,
            root_path: self.root_path@,
            updated_at: self.updated_at@,
            date_added: self.date_added.deep_view(),
            removed_at: self.removed_at.deep_view(),
            episodes: self.episodes.deep_view(),
        }
    }
}

/// An entry of an exchanged round.
#[derive(Debug, Clone, PartialEq)]
pub struct RoundQueueEntry {
    pub episode_id: String,
    pub show_id: String,
    pub play_order: i32,
    pub state: String,
}

#[verifier::ext_equal]
pub struct RoundQueueEntryView {
    pub episode_id: Seq<char>,
    pub show_id: Seq<char>,
    pub play_order: i32,
    pub state: Seq<char>,
}

impl DeepView for RoundQueueEntry {
    type V = RoundQueueEntryView;

    open spec fn deep_view(&self) -> RoundQueueEntryView {
        RoundQueueEntryView {
            episode_id: self.episode_id@,
            show_id: self.show_id@,
            play_order: self.play_order,
            state: self.state@,
        }
    }
}

/// The round of a playlist, with the time at which it last changed.
#[derive(Debug, Clone, PartialEq)]
pub struct LibraryQueue {
    pub playlist: String,
    pub updated_at: String,
    pub entries: Vec<RoundQueueEntry>,
}

#[verifier::ext_equal]
pub struct LibraryQueueView {
    pub playlist: Seq<char>,
    pub updated_at: Seq<char>,
    pub entries: Seq<RoundQueueEntryView>,
}

impl DeepView for LibraryQueue {
    type V = LibraryQueueView;

    open spec fn deep_view(&self) -> LibraryQueueView {
        LibraryQueueView {
            playlist: self.playlist@,
            updated_at: self.updated_at@,
            entries: self.entries.deep_view(),
        }
    }
}

} // verus!
