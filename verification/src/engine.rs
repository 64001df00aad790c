//! Rounds, advancing and deferring, over plain values.
//!
//! A show offers its lowest-positioned unwatched episode. A round holds one such
//! episode of every active show. Advancing marks episodes watched and retires a
//! show that has none left; deferring sends an episode to the back of its show's
//! queue.

use vstd::prelude::*;

use crate::ordering;
use crate::ordering::{Candidate, Ordered};

verus! {

/// One episode of a show. `watched_at` is an ISO-8601 time, or `None` while the
/// episode is unwatched. `resume_pos` is the bit pattern of the seconds (an IEEE
/// double) at which playback stopped.
#[derive(Debug, Clone, PartialEq)]
pub struct Episode {
    pub id: String,
    pub relative_path: String,
    pub position: i64,
    pub watched_at: Option<String>,
    pub resume_pos: Option<u64>,
}

#[verifier::ext_equal]
pub struct EpisodeView {
    pub id: Seq<char>,
    pub relative_path: Seq<char>,
    pub position: i64,
    pub watched_at: Option<Seq<char>>,
    pub resume_pos: Option<u64>,
}

impl DeepView for Episode {
    type V = EpisodeView;

    open spec fn deep_view(&self) -> EpisodeView {
        EpisodeView {
            id: self.id@,
            relative_path: self.relative_path@,
            position: self.position,
            watched_at: self.watched_at.deep_view(),
            resume_pos: self.resume_pos,
        }
    }
}

/// A show with its episodes. `removed_at` is set once the show is retired.
#[derive(Debug, Clone, PartialEq)]
pub struct Show {
    pub id: String,
    pub playlist: String,
    pub name: String,
    pub root_path: String,
    pub episodes: Vec<Episode>,
    pub removed_at: Option<String>,
    pub date_added: Option<String>,
}

#[verifier::ext_equal]
pub struct ShowView {
    pub id: Seq<char>,
    pub playlist: Seq<char>,
    pub name: Seq<char>,
    pub root_path: Seq<char>,
    pub episodes: Seq<EpisodeView>,
    pub removed_at: Option<Seq<char>>,
    pub date_added: Option<Seq<char>>,
}

impl DeepView for Show {
    type V = ShowView;

    open spec fn deep_view(&self) -> ShowView {
        ShowView {
            id: self.id@,
            playlist: self.playlist@,
            name: self.name@,
            root_path: self.root_path@,
            episodes: self.episodes.deep_view(),
            removed_at: self.removed_at.deep_view(),
            date_added: self.date_added.deep_view(),
        }
    }
}

/// One play that counted as a watch.
#[derive(Debug, Clone, PartialEq)]
pub struct HistoryRow {
    pub show_id: String,
    pub episode_id: String,
    pub relative_path: String,
    pub played_at: String,
}

#[verifier::ext_equal]
pub struct HistoryRowView {
    pub show_id: Seq<char>,
    pub episode_id: Seq<char>,
    pub relative_path: Seq<char>,
    pub played_at: Seq<char>,
}

impl DeepView for HistoryRow {
    type V = HistoryRowView;

    open spec fn deep_view(&self) -> HistoryRowView {
        HistoryRowView {
            show_id: self.show_id@,
            episode_id: self.episode_id@,
            relative_path: self.relative_path@,
            played_at: self.played_at@,
        }
    }
}

// ── the next pick ───────────────────────────────────────────────────────

/// Episode `i` is the show's next pick: unwatched, and no unwatched episode has
/// a lower position, nor the same position and an earlier place.
pub open spec fn is_pick(eps: Seq<EpisodeView>, i: int) -> bool {
    &&& 0 <= i < eps.len()
    &&& eps[i].watched_at is None
    &&& forall|j: int|
        0 <= j < eps.len() && (#[trigger] eps[j]).watched_at is None ==> eps[i].position
            < eps[j].position || (eps[i].position == eps[j].position && i <= j)
}

pub open spec fn pick(eps: Seq<EpisodeView>) -> Option<EpisodeView> {
    if exists|i: int| is_pick(eps, i) {
        Some(eps[choose|i: int| is_pick(eps, i)])
    } else {
        None
    }
}

pub proof fn lemma_pick_at(eps: Seq<EpisodeView>, i: int)
    requires
        is_pick(eps, i),
    ensures
        pick(eps) == Some(eps[i]),
{
    let k = choose|k: int| is_pick(eps, k);
    assert(is_pick(eps, k));
    assert(eps[k].watched_at is None && eps[i].watched_at is None);
    assert(k == i);
}

/// A show with an unwatched episode has a pick.
pub proof fn lemma_pick_exists(eps: Seq<EpisodeView>)
    ensures
        pick(eps) is None <==> all_watched_spec(eps),
        pick(eps) is Some ==> exists|i: int| is_pick(eps, i) && pick(eps) == Some(eps[i]),
    decreases eps.len(),
{
    if exists|i: int| is_pick(eps, i) {
        let i = choose|i: int| is_pick(eps, i);
        assert(eps[i].watched_at is None);
    } else if eps.len() > 0 {
        let front = eps.drop_last();
        let n = eps.len() - 1;
        lemma_pick_exists(front);
        if exists|i: int| is_pick(front, i) {
            let i = choose|i: int| is_pick(front, i);
            assert(front[i] == eps[i]);
            if eps[n].watched_at is None && eps[n].position < eps[i].position {
                assert forall|j: int|
                    0 <= j < eps.len() && (#[trigger] eps[j]).watched_at is None implies eps[n].position
                    < eps[j].position || (eps[n].position == eps[j].position && n <= j) by {
                    if j < n {
                        assert(front[j].watched_at is None);
                    }
                }
                assert(is_pick(eps, n));
            } else {
                assert forall|j: int|
                    0 <= j < eps.len() && (#[trigger] eps[j]).watched_at is None implies eps[i].position
                    < eps[j].position || (eps[i].position == eps[j].position && i <= j) by {
                    if j < n {
                        assert(front[j].watched_at is None);
                    }
                }
                assert(is_pick(eps, i));
            }
        } else {
            assert(all_watched_spec(front));
            assert forall|j: int| 0 <= j < n implies (#[trigger] eps[j]).watched_at is Some by {
                assert(front[j].watched_at is Some);
            }
            if eps[n].watched_at is None {
                assert(is_pick(eps, n));
            }
        }
    }
}

pub open spec fn all_watched_spec(eps: Seq<EpisodeView>) -> bool {
    forall|i: int| 0 <= i < eps.len() ==> (#[trigger] eps[i]).watched_at is Some
}

/// The show's next pick: the lowest-positioned episode that is not watched; of
/// several at that position, the first.
pub fn first_unwatched(episodes: &[Episode]) -> (r: Option<&Episode>)
    ensures
        r.deep_view() == pick(episodes.deep_view()),
        r is None <==> all_watched_spec(episodes.deep_view()),
        r matches Some(e) ==> exists|i: int|
            is_pick(episodes.deep_view(), i) && e == episodes@[i],
{
    let ghost eps = episodes.deep_view();
    let mut best: Option<usize> = None;
    let mut i: usize = 0;
    while i < episodes.len()
        invariant
            i <= episodes@.len(),
            eps == episodes.deep_view(),
            best is None ==> forall|j: int|
                0 <= j < i ==> (#[trigger] eps[j]).watched_at is Some,
            best matches Some(b) ==> b < i && eps[b as int].watched_at is None && forall|j: int|
                0 <= j < i && (#[trigger] eps[j]).watched_at is None ==> eps[b as int].position
                    < eps[j].position || (eps[b as int].position == eps[j].position && b <= j),
        decreases episodes.len() - i,
    {
        assert(eps[i as int] == episodes@[i as int].deep_view());
        if episodes[i].watched_at.is_none() {
            match best {
                None => {
                    best = Some(i);
                },
                Some(b) => {
                    assert(eps[b as int] == episodes@[b as int].deep_view());
                    if episodes[i].position < episodes[b].position {
                        best = Some(i);
                    }
                },
            }
        }
        i = i + 1;
    }
    proof {
        lemma_pick_exists(eps);
    }
    match best {
        None => None,
        Some(b) => {
            proof {
                assert(is_pick(eps, b as int));
                lemma_pick_at(eps, b as int);
                assert(eps[b as int] == episodes@[b as int].deep_view());
            }
            Some(&episodes[b])
        },
    }
}

pub fn all_watched(episodes: &[Episode]) -> (r: bool)
    ensures
        r == all_watched_spec(episodes.deep_view()),
{
    let ghost eps = episodes.deep_view();
    let mut i: usize = 0;
    while i < episodes.len()
        invariant
            i <= episodes@.len(),
            eps == episodes.deep_view(),
            forall|j: int| 0 <= j < i ==> (#[trigger] eps[j]).watched_at is Some,
        decreases episodes.len() - i,
    {
        assert(eps[i as int] == episodes@[i as int].deep_view());
        if episodes[i].watched_at.is_none() {
            return false;
        }
        i = i + 1;
    }
    true
}

// ── rounds ──────────────────────────────────────────────────────────────

/// What a show puts into a round: its next pick, unless the show is retired.
pub open spec fn offer(s: ShowView) -> Option<ordering::CandidateView> {
    if s.removed_at is Some {
        None
    } else {
        match pick(s.episodes) {
            Some(ep) => Some(
                ordering::CandidateView {
                    episode_id: ep.id,
                    show_id: s.id,
                    root_path: s.root_path,
                    relative_path: ep.relative_path,
                },
            ),
            None => None,
        }
    }
}

pub open spec fn offers(shows: Seq<ShowView>) -> Seq<ordering::CandidateView>
    decreases shows.len(),
{
    if shows.len() == 0 {
        Seq::empty()
    } else {
        match offer(shows.last()) {
            Some(c) => offers(shows.drop_last()).push(c),
            None => offers(shows.drop_last()),
        }
    }
}

pub open spec fn round_of_shows(shows: Seq<ShowView>) -> Seq<ordering::OrderedView> {
    ordering::round_of(offers(shows))
}

/// One episode per active show, in the order of the round.
pub fn next_round(shows: &[Show]) -> (r: Vec<Ordered>)
    ensures
        r.deep_view() == round_of_shows(shows.deep_view()),
{
    let ghost views = shows.deep_view();
    let mut cands: Vec<Candidate> = Vec::new();
    let mut i: usize = 0;
    assert(cands.deep_view() =~= offers(views.take(0)));
    while i < shows.len()
        invariant
            i <= shows@.len(),
            views == shows.deep_view(),
            cands.deep_view() == offers(views.take(i as int)),
        decreases shows.len() - i,
    {
        let s = &shows[i];
        proof {
            assert(views[i as int] == s.deep_view());
            assert(views.take(i + 1).last() == s.deep_view());
            assert(views.take(i + 1).drop_last() =~= views.take(i as int));
        }
        if s.removed_at.is_none() {
            match first_unwatched(s.episodes.as_slice()) {
                Some(ep) => {
                    let ghost before = cands.deep_view();
                    cands.push(
                        Candidate {
                            episode_id: ep.id.clone(),
                            show_id: s.id.clone(),
                            root_path: s.root_path.clone(),
                            relative_path: ep.relative_path.clone(),
                        },
                    );
                    assert(cands.deep_view() =~= before.push(offer(s.deep_view())->0));
                },
                None => {},
            }
        }
        i = i + 1;
    }
    assert(views.take(i as int) =~= views);
    ordering::sort_round(cands.as_slice())
}

// ── advancing ───────────────────────────────────────────────────────────

/// The place of the first episode with this id.
pub open spec fn first_named(eps: Seq<EpisodeView>, id: Seq<char>) -> Option<int>
    decreases eps.len(),
{
    if eps.len() == 0 {
        None
    } else {
        match first_named(eps.drop_last(), id) {
            Some(i) => Some(i),
            None => if eps.last().id == id {
                Some(eps.len() - 1)
            } else {
                None
            },
        }
    }
}

pub proof fn lemma_first_named(eps: Seq<EpisodeView>, id: Seq<char>)
    ensures
        first_named(eps, id) matches Some(i) ==> 0 <= i < eps.len() && eps[i].id == id && forall|
            j: int,
        |
            0 <= j < i ==> (#[trigger] eps[j]).id != id,
        first_named(eps, id) is None ==> forall|j: int|
            0 <= j < eps.len() ==> (#[trigger] eps[j]).id != id,
    decreases eps.len(),
{
    if eps.len() > 0 {
        let front = eps.drop_last();
        lemma_first_named(front, id);
        match first_named(front, id) {
            Some(i) => {
                assert(front[i] == eps[i]);
                assert forall|j: int| 0 <= j < i implies (#[trigger] eps[j]).id != id by {
                    assert(front[j].id != id);
                }
            },
            None => {
                assert forall|j: int| 0 <= j < eps.len() - 1 implies (#[trigger] eps[j]).id
                    != id by {
                    assert(front[j].id != id);
                }
            },
        }
    }
}

/// The first place with an id is fixed by what it is.
pub proof fn lemma_first_named_is(eps: Seq<EpisodeView>, id: Seq<char>, i: int)
    requires
        0 <= i < eps.len(),
        eps[i].id == id,
        forall|j: int| 0 <= j < i ==> (#[trigger] eps[j]).id != id,
    ensures
        first_named(eps, id) == Some(i),
{
    lemma_first_named(eps, id);
    match first_named(eps, id) {
        Some(k) => {
            if k < i {
                assert(eps[k].id != id);
            }
            if i < k {
                assert(eps[i].id != id);
            }
        },
        None => {
            assert(eps[i].id != id);
        },
    }
}

/// The place of the episode that advancing `id` marks, if it marks one: the
/// first with that id, where it is unwatched.
pub open spec fn advances(eps: Seq<EpisodeView>, id: Seq<char>) -> Option<int> {
    match first_named(eps, id) {
        Some(i) => if eps[i].watched_at is None {
            Some(i)
        } else {
            None
        },
        None => None,
    }
}

pub open spec fn watched(ep: EpisodeView, now: Seq<char>) -> EpisodeView {
    EpisodeView { watched_at: Some(now), ..ep }
}

/// The episodes after each of `ids`, in turn, was marked watched.
pub open spec fn marked(eps: Seq<EpisodeView>, ids: Seq<Seq<char>>, now: Seq<char>) -> Seq<
    EpisodeView,
>
    decreases ids.len(),
{
    if ids.len() == 0 {
        eps
    } else {
        let before = marked(eps, ids.drop_last(), now);
        match advances(before, ids.last()) {
            Some(i) => before.update(i, watched(before[i], now)),
            None => before,
        }
    }
}

/// One row for each id whose episode was still unwatched at its turn.
pub open spec fn plays(
    show_id: Seq<char>,
    eps: Seq<EpisodeView>,
    ids: Seq<Seq<char>>,
    now: Seq<char>,
) -> Seq<HistoryRowView>
    decreases ids.len(),
{
    if ids.len() == 0 {
        Seq::empty()
    } else {
        let before = marked(eps, ids.drop_last(), now);
        let rows = plays(show_id, eps, ids.drop_last(), now);
        match advances(before, ids.last()) {
            Some(i) => rows.push(
                HistoryRowView {
                    show_id,
                    episode_id: before[i].id,
                    relative_path: before[i].relative_path,
                    played_at: now,
                },
            ),
            None => rows,
        }
    }
}

/// The show after an advance: the named episodes are watched, and the show is
/// retired if this was what drained it.
pub open spec fn advanced_show(s: ShowView, ids: Seq<Seq<char>>, now: Seq<char>) -> ShowView {
    let eps = marked(s.episodes, ids, now);
    ShowView {
        episodes: eps,
        removed_at: if drains(s, ids, now) {
            Some(now)
        } else {
            s.removed_at
        },
        ..s
    }
}

pub open spec fn drains(s: ShowView, ids: Seq<Seq<char>>, now: Seq<char>) -> bool {
    plays(s.id, s.episodes, ids, now).len() > 0 && all_watched_spec(marked(s.episodes, ids, now))
}

fn find_first(episodes: &Vec<Episode>, id: &String) -> (r: Option<usize>)
    ensures
        r matches Some(i) ==> first_named(episodes.deep_view(), id@) == Some(i as int),
        r is None ==> first_named(episodes.deep_view(), id@) is None,
        r matches Some(i) ==> i < episodes@.len(),
{
    let ghost eps = episodes.deep_view();
    let mut i: usize = 0;
    while i < episodes.len()
        invariant
            i <= episodes@.len(),
            eps == episodes.deep_view(),
            forall|j: int| 0 <= j < i ==> (#[trigger] eps[j]).id != id@,
        decreases episodes.len() - i,
    {
        assert(eps[i as int] == episodes@[i as int].deep_view());
        if episodes[i].id == *id {
            proof {
                lemma_first_named_is(eps, id@, i as int);
            }
            return Some(i);
        }
        i = i + 1;
    }
    proof {
        lemma_first_named(eps, id@);
    }
    None
}

/// Marks the named episodes of `show` watched. Returns the rows for the watch
/// history, how many episodes were newly watched, and whether the show was
/// drained by it and is now retired.
pub fn advance(show: &mut Show, episode_ids: &[String], now: &str) -> (r: (
    Vec<HistoryRow>,
    usize,
    bool,
))
    ensures
        final(show).deep_view() == advanced_show(
            old(show).deep_view(),
            episode_ids.deep_view(),
            now@,
        ),
        r.0.deep_view() == plays(
            old(show).id@,
            old(show).episodes.deep_view(),
            episode_ids.deep_view(),
            now@,
        ),
        r.1 == r.0@.len(),
        r.2 == drains(old(show).deep_view(), episode_ids.deep_view(), now@),
{
    let ghost s0 = show.deep_view();
    let ghost ids = episode_ids.deep_view();
    let mut history: Vec<HistoryRow> = Vec::new();
    let mut i: usize = 0;
    proof {
        assert(ids.take(0) =~= Seq::empty());
        assert(history.deep_view() =~= Seq::empty());
    }
    while i < episode_ids.len()
        invariant
            i <= episode_ids@.len(),
            ids == episode_ids.deep_view(),
            s0 == old(show).deep_view(),
            show.deep_view() == (ShowView {
                episodes: marked(s0.episodes, ids.take(i as int), now@),
                ..s0
            }),
            history.deep_view() == plays(s0.id, s0.episodes, ids.take(i as int), now@),
        decreases episode_ids.len() - i,
    {
        let epid = &episode_ids[i];
        let ghost eps = show.episodes.deep_view();
        proof {
            assert(ids[i as int] == epid@);
            assert(ids.take(i + 1).drop_last() =~= ids.take(i as int));
            assert(ids.take(i + 1).last() == epid@);
        }
        match find_first(&show.episodes, epid) {
            Some(k) => {
                assert(eps[k as int] == show.episodes@[k as int].deep_view());
                if show.episodes[k].watched_at.is_none() {
                    let ghost rows = history.deep_view();
                    let row = HistoryRow {
                        show_id: show.id.clone(),
                        episode_id: show.episodes[k].id.clone(),
                        relative_path: show.episodes[k].relative_path.clone(),
                        played_at: now.to_owned(),
                    };
                    show.episodes[k].watched_at = Some(now.to_owned());
                    history.push(row);
                    proof {
                        assert(show.episodes.deep_view() =~= eps.update(
                            k as int,
                            watched(eps[k as int], now@),
                        ));
                        assert(history.deep_view() =~= rows.push(row.deep_view()));
                    }
                }
            },
            None => {},
        }
        i = i + 1;
    }
    assert(ids.take(i as int) =~= ids);
    let advanced: usize = history.len();
    let removed = advanced > 0 && all_watched(show.episodes.as_slice());
    if removed {
        show.removed_at = Some(now.to_owned());
    }
    (history, advanced, removed)
}

// ── deferring ───────────────────────────────────────────────────────────

/// The place of the last episode with this id.
pub open spec fn last_named(eps: Seq<EpisodeView>, id: Seq<char>) -> Option<int>
    decreases eps.len(),
{
    if eps.len() == 0 {
        None
    } else if eps.last().id == id {
        Some(eps.len() - 1)
    } else {
        last_named(eps.drop_last(), id)
    }
}

/// The highest position, and no less than zero.
pub open spec fn highest_position(eps: Seq<EpisodeView>) -> int
    decreases eps.len(),
{
    if eps.len() == 0 {
        0
    } else {
        let h = highest_position(eps.drop_last());
        if eps.last().position > h {
            eps.last().position as int
        } else {
            h
        }
    }
}

/// Whether deferring `id` moves an episode: one has that id, and is unwatched.
pub open spec fn can_defer(eps: Seq<EpisodeView>, id: Seq<char>) -> bool {
    match last_named(eps, id) {
        Some(i) => eps[i].watched_at is None,
        None => false,
    }
}

pub open spec fn deferred(eps: Seq<EpisodeView>, id: Seq<char>) -> Seq<EpisodeView> {
    if can_defer(eps, id) {
        let i = last_named(eps, id)->0;
        eps.update(
            i,
            EpisodeView { position: (highest_position(eps) + 1) as i64, ..eps[i] },
        )
    } else {
        eps
    }
}

pub proof fn lemma_highest_position(eps: Seq<EpisodeView>)
    ensures
        0 <= highest_position(eps) <= i64::MAX,
        forall|i: int| 0 <= i < eps.len() ==> (#[trigger] eps[i]).position <= highest_position(eps),
    decreases eps.len(),
{
    if eps.len() > 0 {
        let front = eps.drop_last();
        lemma_highest_position(front);
        assert forall|i: int| 0 <= i < eps.len() implies (#[trigger] eps[i]).position
            <= highest_position(eps) by {
            if i < front.len() {
                assert(front[i].position <= highest_position(front));
            }
        }
    }
}

pub proof fn lemma_last_named(eps: Seq<EpisodeView>, id: Seq<char>)
    ensures
        last_named(eps, id) matches Some(i) ==> 0 <= i < eps.len() && eps[i].id == id && forall|
            j: int,
        |
            i < j < eps.len() ==> (#[trigger] eps[j]).id != id,
        last_named(eps, id) is None ==> forall|j: int|
            0 <= j < eps.len() ==> (#[trigger] eps[j]).id != id,
    decreases eps.len(),
{
    if eps.len() > 0 && eps.last().id != id {
        let front = eps.drop_last();
        lemma_last_named(front, id);
        match last_named(front, id) {
            Some(i) => {
                assert forall|j: int| i < j < eps.len() implies (#[trigger] eps[j]).id != id by {
                    if j < front.len() {
                        assert(front[j].id != id);
                    }
                }
            },
            None => {
                assert forall|j: int| 0 <= j < eps.len() implies (#[trigger] eps[j]).id != id by {
                    if j < front.len() {
                        assert(front[j].id != id);
                    }
                }
            },
        }
    }
}

/// The highest position of the episodes, and no less than zero.
pub fn highest(episodes: &[Episode]) -> (r: i64)
    ensures
        r == highest_position(episodes.deep_view()),
{
    let ghost eps = episodes.deep_view();
    let mut max_pos: i64 = 0;
    let mut i: usize = 0;
    while i < episodes.len()
        invariant
            i <= episodes@.len(),
            eps == episodes.deep_view(),
            max_pos == highest_position(eps.take(i as int)),
        decreases episodes.len() - i,
    {
        proof {
            assert(eps[i as int] == episodes@[i as int].deep_view());
            assert(eps.take(i + 1).drop_last() =~= eps.take(i as int));
        }
        if episodes[i].position > max_pos {
            max_pos = episodes[i].position;
        }
        i = i + 1;
    }
    assert(eps.take(i as int) =~= eps);
    max_pos
}

/// Sends the named unwatched episode to the back of its show's queue, unwatched
/// as before. Returns `false`, and changes nothing, if the episode is absent or
/// watched.
pub fn defer(episodes: &mut [Episode], episode_id: &str) -> (r: bool)
    requires
        can_defer(old(episodes).deep_view(), episode_id@) ==> highest_position(
            old(episodes).deep_view(),
        ) < i64::MAX,
    ensures
        r == can_defer(old(episodes).deep_view(), episode_id@),
        final(episodes).deep_view() == deferred(old(episodes).deep_view(), episode_id@),
{
    let ghost eps = episodes.deep_view();
    let max_pos: i64 = highest(episodes);
    let mut idx: Option<usize> = None;
    let mut i: usize = 0;
    while i < episodes.len()
        invariant
            i <= episodes@.len(),
            eps == episodes.deep_view(),
            idx matches Some(k) ==> last_named(eps.take(i as int), episode_id@) == Some(k as int)
                && k < i,
            idx is None ==> last_named(eps.take(i as int), episode_id@) is None,
        decreases episodes.len() - i,
    {
        let e = &episodes[i];
        proof {
            assert(eps[i as int] == e.deep_view());
            assert(eps.take(i + 1).drop_last() =~= eps.take(i as int));
            assert(eps.take(i + 1).last() == e.deep_view());
        }
        if crate::text::same_text(e.id.as_str(), episode_id) {
            idx = Some(i);
        }
        i = i + 1;
    }
    assert(eps.take(i as int) =~= eps);
    match idx {
        Some(k) => {
            assert(eps[k as int] == episodes@[k as int].deep_view());
            if episodes[k].watched_at.is_none() {
                episodes[k].position = max_pos + 1;
                assert(episodes.deep_view() =~= deferred(eps, episode_id@));
                true
            } else {
                false
            }
        },
        None => false,
    }
}

// ── what always holds ───────────────────────────────────────────────────

pub proof fn lemma_first_named_by_ids(a: Seq<EpisodeView>, b: Seq<EpisodeView>, id: Seq<char>)
    requires
        a.len() == b.len(),
        forall|i: int| 0 <= i < a.len() ==> (#[trigger] a[i]).id == b[i].id,
    ensures
        first_named(a, id) == first_named(b, id),
    decreases a.len(),
{
    if a.len() > 0 {
        let x = a.drop_last();
        let y = b.drop_last();
        assert forall|i: int| 0 <= i < x.len() implies (#[trigger] x[i]).id == y[i].id by {
            assert(a[i].id == b[i].id);
        }
        lemma_first_named_by_ids(x, y, id);
        assert(a[a.len() - 1].id == b[b.len() - 1].id);
    }
}

/// Whether an advance of `ids` marks episode `i`.
pub open spec fn is_marked(eps: Seq<EpisodeView>, ids: Seq<Seq<char>>, i: int) -> bool {
    &&& 0 <= i < eps.len()
    &&& eps[i].watched_at is None
    &&& ids.contains(eps[i].id)
    &&& first_named(eps, eps[i].id) == Some(i)
}

/// An advance marks exactly the named episodes that were unwatched, and changes
/// nothing else of any episode. The named episodes may be any part of the round.
pub proof fn law_advance_marks_exactly_the_named(
    eps: Seq<EpisodeView>,
    ids: Seq<Seq<char>>,
    now: Seq<char>,
)
    ensures
        marked(eps, ids, now).len() == eps.len(),
        forall|i: int|
            0 <= i < eps.len() ==> #[trigger] marked(eps, ids, now)[i] == if is_marked(eps, ids, i) {
                watched(eps[i], now)
            } else {
                eps[i]
            },
    decreases ids.len(),
{
    if ids.len() > 0 {
        let front = ids.drop_last();
        let id = ids.last();
        law_advance_marks_exactly_the_named(eps, front, now);
        let before = marked(eps, front, now);
        let after = marked(eps, ids, now);
        assert forall|i: int| 0 <= i < before.len() implies (#[trigger] before[i]).id == eps[i].id by {
        }
        lemma_first_named_by_ids(before, eps, id);
        lemma_first_named(eps, id);
        assert forall|i: int| 0 <= i < eps.len() implies #[trigger] after[i] == if is_marked(
            eps,
            ids,
            i,
        ) {
            watched(eps[i], now)
        } else {
            eps[i]
        } by {
            assert(before[i] == if is_marked(eps, front, i) {
                watched(eps[i], now)
            } else {
                eps[i]
            });
            if front.contains(eps[i].id) {
                let k = choose|k: int| 0 <= k < front.len() && front[k] == eps[i].id;
                assert(ids[k] == eps[i].id);
            }
            if ids.contains(eps[i].id) && eps[i].id != id {
                let k = choose|k: int| 0 <= k < ids.len() && ids[k] == eps[i].id;
                assert(front[k] == eps[i].id);
            }
            if eps[i].id == id {
                assert(ids[ids.len() - 1] == id);
            }
        }
    }
}

pub proof fn lemma_nothing_left(
    eps: Seq<EpisodeView>,
    ids: Seq<Seq<char>>,
    show_id: Seq<char>,
    now: Seq<char>,
)
    requires
        forall|k: int| 0 <= k < ids.len() ==> advances(eps, #[trigger] ids[k]) is None,
    ensures
        marked(eps, ids, now) == eps,
        plays(show_id, eps, ids, now).len() == 0,
    decreases ids.len(),
{
    if ids.len() > 0 {
        let front = ids.drop_last();
        assert forall|k: int| 0 <= k < front.len() implies advances(
            eps,
            #[trigger] front[k],
        ) is None by {
            assert(advances(eps, ids[k]) is None);
        }
        lemma_nothing_left(eps, front, show_id, now);
        assert(advances(eps, ids[ids.len() - 1]) is None);
    }
}

/// Advancing again what was advanced changes nothing, whatever the time: no
/// episode is marked anew and no play is recorded.
pub proof fn law_advance_is_idempotent(
    s: ShowView,
    ids: Seq<Seq<char>>,
    now: Seq<char>,
    later: Seq<char>,
)
    ensures
        advanced_show(advanced_show(s, ids, now), ids, later) == advanced_show(s, ids, now),
        plays(s.id, advanced_show(s, ids, now).episodes, ids, later).len() == 0,
        !drains(advanced_show(s, ids, now), ids, later),
{
    let eps = s.episodes;
    let m = marked(eps, ids, now);
    law_advance_marks_exactly_the_named(eps, ids, now);
    assert forall|k: int| 0 <= k < ids.len() implies advances(m, #[trigger] ids[k]) is None by {
        assert forall|i: int| 0 <= i < m.len() implies (#[trigger] m[i]).id == eps[i].id by {
        }
        lemma_first_named_by_ids(m, eps, ids[k]);
        lemma_first_named(eps, ids[k]);
        match first_named(eps, ids[k]) {
            Some(i) => {
                assert(ids.contains(eps[i].id));
                assert(m[i].watched_at is Some);
            },
            None => {},
        }
    }
    lemma_nothing_left(m, ids, s.id, later);
}

/// The watch history gains exactly one row for each newly watched episode.
pub proof fn law_one_play_per_marked_episode(
    show_id: Seq<char>,
    eps: Seq<EpisodeView>,
    ids: Seq<Seq<char>>,
    now: Seq<char>,
)
    ensures
        plays(show_id, eps, ids, now).len() <= ids.len(),
        forall|r: HistoryRowView| #[trigger]
            plays(show_id, eps, ids, now).contains(r) ==> exists|i: int|
                #![trigger is_marked(eps, ids, i)]
                is_marked(eps, ids, i) && r == (HistoryRowView {
                    show_id,
                    episode_id: eps[i].id,
                    relative_path: eps[i].relative_path,
                    played_at: now,
                }),
        forall|i: int| #[trigger]
            is_marked(eps, ids, i) ==> plays(show_id, eps, ids, now).contains(
                HistoryRowView {
                    show_id,
                    episode_id: eps[i].id,
                    relative_path: eps[i].relative_path,
                    played_at: now,
                },
            ),
        forall|j: int, k: int|
            #![trigger plays(show_id, eps, ids, now)[j], plays(show_id, eps, ids, now)[k]]
            0 <= j < k < plays(show_id, eps, ids, now).len() ==> plays(show_id, eps, ids, now)[j].episode_id
                != plays(show_id, eps, ids, now)[k].episode_id,
    decreases ids.len(),
{
    if ids.len() > 0 {
        let front = ids.drop_last();
        let id = ids.last();
        law_one_play_per_marked_episode(show_id, eps, front, now);
        law_advance_marks_exactly_the_named(eps, front, now);
        let before = marked(eps, front, now);
        let rows = plays(show_id, eps, front, now);
        let all = plays(show_id, eps, ids, now);
        assert forall|i: int| 0 <= i < before.len() implies (#[trigger] before[i]).id == eps[i].id by {
        }
        lemma_first_named_by_ids(before, eps, id);
        lemma_first_named(eps, id);
        let hit = advances(before, id);
        // Marked by the front is marked by the whole; the rest is the last id's.
        assert forall|i: int| is_marked(eps, front, i) implies #[trigger] is_marked(eps, ids, i) by {
            let k = choose|k: int| 0 <= k < front.len() && front[k] == eps[i].id;
            assert(ids[k] == eps[i].id);
        }
        assert forall|i: int| #[trigger] is_marked(eps, ids, i) && !is_marked(eps, front, i) implies hit
            == Some(i) by {
            let k = choose|k: int| 0 <= k < ids.len() && ids[k] == eps[i].id;
            if k < front.len() {
                assert(front[k] == eps[i].id);
            }
            assert(before[i] == eps[i]);
        }
        match hit {
            Some(i) => {
                assert(before[i].watched_at is None);
                assert(!is_marked(eps, front, i));
                assert(before[i] == eps[i]);
                assert(ids[ids.len() - 1] == eps[i].id);
                assert(is_marked(eps, ids, i));
                let row = HistoryRowView {
                    show_id,
                    episode_id: eps[i].id,
                    relative_path: eps[i].relative_path,
                    played_at: now,
                };
                assert(all == rows.push(row));
                assert(all[rows.len() as int] == row);
                assert forall|r: HistoryRowView| #[trigger] all.contains(r) implies exists|m: int|
                    #![trigger is_marked(eps, ids, m)]
                    is_marked(eps, ids, m) && r == (HistoryRowView {
                        show_id,
                        episode_id: eps[m].id,
                        relative_path: eps[m].relative_path,
                        played_at: now,
                    }) by {
                    let k = choose|k: int| 0 <= k < all.len() && all[k] == r;
                    if k < rows.len() {
                        assert(rows[k] == r);
                        assert(rows.contains(r));
                        let m = choose|m: int|
                            #![trigger is_marked(eps, front, m)]
                            is_marked(eps, front, m) && r == (HistoryRowView {
                                show_id,
                                episode_id: eps[m].id,
                                relative_path: eps[m].relative_path,
                                played_at: now,
                            });
                        assert(is_marked(eps, ids, m));
                    }
                }
                assert forall|m: int| #[trigger] is_marked(eps, ids, m) implies all.contains(
                    HistoryRowView {
                        show_id,
                        episode_id: eps[m].id,
                        relative_path: eps[m].relative_path,
                        played_at: now,
                    },
                ) by {
                    let want = HistoryRowView {
                        show_id,
                        episode_id: eps[m].id,
                        relative_path: eps[m].relative_path,
                        played_at: now,
                    };
                    if is_marked(eps, front, m) {
                        let k = choose|k: int| 0 <= k < rows.len() && rows[k] == want;
                        assert(all[k] == want);
                    } else {
                        assert(m == i);
                        assert(all[rows.len() as int] == want);
                    }
                }
                assert forall|j: int, k: int|
                    #![trigger all[j], all[k]]
                    0 <= j < k < all.len() implies all[j].episode_id != all[k].episode_id by {
                    assert(rows[j] == all[j]);
                    if k == rows.len() {
                        assert(rows.contains(rows[j]));
                        let m = choose|m: int|
                            #![trigger is_marked(eps, front, m)]
                            is_marked(eps, front, m) && rows[j] == (HistoryRowView {
                                show_id,
                                episode_id: eps[m].id,
                                relative_path: eps[m].relative_path,
                                played_at: now,
                            });
                        assert(first_named(eps, eps[m].id) == Some(m));
                        assert(first_named(eps, eps[i].id) == Some(i));
                    } else {
                        assert(rows[k] == all[k]);
                    }
                }
            },
            None => {
                assert(all == rows);
                assert forall|r: HistoryRowView| #[trigger] all.contains(r) implies exists|m: int|
                    #![trigger is_marked(eps, ids, m)]
                    is_marked(eps, ids, m) && r == (HistoryRowView {
                        show_id,
                        episode_id: eps[m].id,
                        relative_path: eps[m].relative_path,
                        played_at: now,
                    }) by {
                    let m = choose|m: int|
                        #![trigger is_marked(eps, front, m)]
                        is_marked(eps, front, m) && r == (HistoryRowView {
                            show_id,
                            episode_id: eps[m].id,
                            relative_path: eps[m].relative_path,
                            played_at: now,
                        });
                    assert(is_marked(eps, ids, m));
                }
            },
        }
    }
}

/// A show that an advance drained offers nothing to any later round.
pub proof fn law_drained_show_leaves_the_round(s: ShowView, ids: Seq<Seq<char>>, now: Seq<char>)
    requires
        drains(s, ids, now),
    ensures
        advanced_show(s, ids, now).removed_at == Some(now),
        offer(advanced_show(s, ids, now)) is None,
{
}

proof fn lemma_offers(shows: Seq<ShowView>)
    ensures
        forall|c: ordering::CandidateView| #[trigger]
            offers(shows).contains(c) <==> exists|i: int|
                0 <= i < shows.len() && offer(#[trigger] shows[i]) == Some(c),
    decreases shows.len(),
{
    if shows.len() > 0 {
        let front = shows.drop_last();
        lemma_offers(front);
        assert forall|c: ordering::CandidateView| #[trigger] offers(shows).contains(c) <==> exists|
            i: int,
        |
            0 <= i < shows.len() && offer(#[trigger] shows[i]) == Some(c) by {
            if exists|i: int| 0 <= i < front.len() && offer(#[trigger] front[i]) == Some(c) {
                let i = choose|i: int| 0 <= i < front.len() && offer(#[trigger] front[i]) == Some(
                    c,
                );
                assert(offer(shows[i]) == Some(c));
                assert(offers(front).contains(c));
                let k = choose|k: int| 0 <= k < offers(front).len() && offers(front)[k] == c;
                assert(offers(shows)[k] == c);
            }
            if exists|i: int| 0 <= i < shows.len() && offer(#[trigger] shows[i]) == Some(c) {
                let i = choose|i: int| 0 <= i < shows.len() && offer(#[trigger] shows[i]) == Some(
                    c,
                );
                if i < front.len() {
                    assert(offer(front[i]) == Some(c));
                } else {
                    assert(offers(shows)[offers(front).len() as int] == c);
                }
            }
            if offers(shows).contains(c) {
                let k = choose|k: int| 0 <= k < offers(shows).len() && offers(shows)[k] == c;
                if k < offers(front).len() {
                    assert(offers(front)[k] == c);
                    assert(offers(front).contains(c));
                    let i = choose|i: int|
                        0 <= i < front.len() && offer(#[trigger] front[i]) == Some(c);
                    assert(offer(shows[i]) == Some(c));
                } else {
                    assert(offer(shows[shows.len() - 1]) == Some(c));
                }
            }
        }
    }
}

pub proof fn lemma_round_members(shows: Seq<ShowView>, o: ordering::OrderedView)
    requires
        round_of_shows(shows).contains(o),
    ensures
        exists|i: int|
            0 <= i < shows.len() && offer(#[trigger] shows[i]) is Some && ordering::resolved(
                offer(shows[i])->0,
            ) == o,
{
    let cands = offers(shows);
    let all = ordering::all_resolved(cands);
    crate::sorting::lemma_in_order::<Ordered>(all);
    let k = choose|k: int| 0 <= k < all.len() && all[k] == o;
    assert(all[k] == ordering::resolved(cands[k]));
    assert(cands.contains(cands[k]));
    lemma_offers(shows);
    let i = choose|i: int| 0 <= i < shows.len() && offer(#[trigger] shows[i]) == Some(cands[k]);
    assert(offer(shows[i]) is Some);
}

/// Every entry of a round is the pick of a show that is not retired.
pub proof fn law_rounds_hold_only_picks_of_active_shows(shows: Seq<ShowView>, k: int)
    requires
        0 <= k < round_of_shows(shows).len(),
    ensures
        exists|i: int|
            0 <= i < shows.len() && (#[trigger] shows[i]).removed_at is None && shows[i].id
                == round_of_shows(shows)[k].show_id && pick(shows[i].episodes) is Some && pick(
                shows[i].episodes,
            )->0.id == round_of_shows(shows)[k].episode_id,
{
    let o = round_of_shows(shows)[k];
    assert(round_of_shows(shows).contains(o));
    lemma_round_members(shows, o);
    let i = choose|i: int|
        0 <= i < shows.len() && offer(#[trigger] shows[i]) is Some && ordering::resolved(
            offer(shows[i])->0,
        ) == o;
    assert(shows[i].removed_at is None);
}

/// Every active show with an unwatched episode has its pick in the round.
pub proof fn law_every_active_show_is_in_the_round(shows: Seq<ShowView>, i: int)
    requires
        0 <= i < shows.len(),
        shows[i].removed_at is None,
        !all_watched_spec(shows[i].episodes),
    ensures
        exists|k: int|
            0 <= k < round_of_shows(shows).len() && (#[trigger] round_of_shows(shows)[k]).show_id
                == shows[i].id && Some(round_of_shows(shows)[k].episode_id) == match pick(
                shows[i].episodes,
            ) {
                Some(e) => Some(e.id),
                None => None,
            },
{
    lemma_pick_exists(shows[i].episodes);
    lemma_offers(shows);
    let c = offer(shows[i])->0;
    assert(offers(shows).contains(c));
    let m = choose|m: int| 0 <= m < offers(shows).len() && offers(shows)[m] == c;
    let all = ordering::all_resolved(offers(shows));
    assert(all[m] == ordering::resolved(c));
    crate::sorting::lemma_in_order::<Ordered>(all);
    assert(all.contains(ordering::resolved(c)));
    let r = round_of_shows(shows);
    assert(r.contains(ordering::resolved(c)));
    let k = choose|k: int| 0 <= k < r.len() && r[k] == ordering::resolved(c);
    assert(r[k].show_id == shows[i].id);
}

/// How many of the shows are not retired.
pub open spec fn active_count(shows: Seq<ShowView>) -> nat
    decreases shows.len(),
{
    if shows.len() == 0 {
        0
    } else {
        active_count(shows.drop_last()) + if shows.last().removed_at is None {
            1nat
        } else {
            0nat
        }
    }
}

/// A round is never larger than the number of active shows.
pub proof fn law_round_size(shows: Seq<ShowView>)
    ensures
        round_of_shows(shows).len() <= active_count(shows),
    decreases shows.len(),
{
    crate::sorting::lemma_in_order::<Ordered>(ordering::all_resolved(offers(shows)));
    if shows.len() > 0 {
        law_round_size(shows.drop_last());
        crate::sorting::lemma_in_order::<Ordered>(
            ordering::all_resolved(offers(shows.drop_last())),
        );
    }
}

proof fn lemma_offers_distinct(shows: Seq<ShowView>)
    requires
        forall|i: int, j: int|
            #![trigger shows[i], shows[j]]
            0 <= i < j < shows.len() ==> shows[i].id != shows[j].id,
    ensures
        offers(shows).no_duplicates(),
        forall|i: int, j: int|
            #![trigger offers(shows)[i], offers(shows)[j]]
            0 <= i < j < offers(shows).len() ==> offers(shows)[i].show_id != offers(
                shows,
            )[j].show_id,
    decreases shows.len(),
{
    if shows.len() > 0 {
        let front = shows.drop_last();
        assert forall|i: int, j: int|
            #![trigger front[i], front[j]]
            0 <= i < j < front.len() implies front[i].id != front[j].id by {
            assert(shows[i].id != shows[j].id);
        }
        lemma_offers_distinct(front);
        let all = offers(shows);
        let some = offers(front);
        assert forall|i: int, j: int|
            #![trigger all[i], all[j]]
            0 <= i < j < all.len() implies all[i].show_id != all[j].show_id by {
            assert(all[i] == some[i]);
            if j < some.len() {
                assert(all[j] == some[j]);
            } else {
                assert(some.contains(some[i]));
                lemma_offers(front);
                let m = choose|m: int|
                    0 <= m < front.len() && offer(#[trigger] front[m]) == Some(some[i]);
                assert(shows[m].id != shows[shows.len() - 1].id);
            }
        }
    }
}

/// No show has two episodes in one round.
pub proof fn law_one_episode_per_show(shows: Seq<ShowView>, j: int, k: int)
    requires
        forall|a: int, b: int|
            #![trigger shows[a], shows[b]]
            0 <= a < b < shows.len() ==> shows[a].id != shows[b].id,
        0 <= j < k < round_of_shows(shows).len(),
    ensures
        round_of_shows(shows)[j].show_id != round_of_shows(shows)[k].show_id,
{
    broadcast use vstd::seq_lib::group_to_multiset_ensures;

    lemma_offers_distinct(shows);
    let cands = offers(shows);
    let all = ordering::all_resolved(cands);
    let r = round_of_shows(shows);
    crate::sorting::lemma_in_order::<Ordered>(all);
    assert(all.no_duplicates()) by {
        assert forall|a: int, b: int| 0 <= a < all.len() && 0 <= b < all.len() && a != b implies all[a]
            != all[b] by {
            assert(all[a].show_id == cands[a].show_id);
            assert(all[b].show_id == cands[b].show_id);
            if a < b {
                assert(cands[a].show_id != cands[b].show_id);
            } else {
                assert(cands[b].show_id != cands[a].show_id);
            }
        }
    }
    all.lemma_multiset_has_no_duplicates();
    assert forall|x: ordering::OrderedView| r.to_multiset().contains(x) implies r.to_multiset().count(
        x,
    ) == 1 by {
    }
    r.lemma_multiset_has_no_duplicates_conv();
    assert(r.contains(r[j]) && r.contains(r[k]));
    let a = choose|a: int| 0 <= a < all.len() && all[a] == r[j];
    let b = choose|b: int| 0 <= b < all.len() && all[b] == r[k];
    assert(r[j] != r[k]);
    assert(all[a].show_id == cands[a].show_id);
    assert(all[b].show_id == cands[b].show_id);
    if a < b {
        assert(cands[a].show_id != cands[b].show_id);
    } else {
        assert(cands[b].show_id != cands[a].show_id);
    }
}

/// Episodes appended behind all others never jump the queue: while anything
/// earlier is unwatched, the show's pick stays what it was.
pub proof fn law_appended_episodes_wait(eps: Seq<EpisodeView>, added: Seq<EpisodeView>)
    requires
        !all_watched_spec(eps),
        forall|i: int|
            0 <= i < added.len() ==> (#[trigger] added[i]).position > highest_position(eps),
    ensures
        pick(eps + added) == pick(eps),
{
    lemma_pick_exists(eps);
    lemma_highest_position(eps);
    let i = choose|i: int| is_pick(eps, i);
    lemma_pick_at(eps, i);
    let all = eps + added;
    assert forall|j: int| 0 <= j < all.len() && (#[trigger] all[j]).watched_at is None implies all[i].position
        < all[j].position || (all[i].position == all[j].position && i <= j) by {
        if j < eps.len() {
            assert(all[j] == eps[j]);
        } else {
            assert(all[j] == added[j - eps.len()]);
        }
    }
    assert(is_pick(all, i));
    lemma_pick_at(all, i);
}

/// Deferring moves one episode of one show to the back and does nothing else:
/// no episode becomes watched, and the show is not drained by it.
pub proof fn law_defer_only_moves_the_named(eps: Seq<EpisodeView>, id: Seq<char>)
    ensures
        deferred(eps, id).len() == eps.len(),
        forall|i: int|
            #![trigger deferred(eps, id)[i]]
            0 <= i < eps.len() ==> deferred(eps, id)[i] == (EpisodeView {
                position: deferred(eps, id)[i].position,
                ..eps[i]
            }) && (deferred(eps, id)[i] != eps[i] ==> can_defer(eps, id) && Some(i) == last_named(
                eps,
                id,
            )),
        all_watched_spec(deferred(eps, id)) <==> all_watched_spec(eps),
{
    lemma_last_named(eps, id);
    let d = deferred(eps, id);
    if all_watched_spec(d) {
        assert forall|i: int| 0 <= i < eps.len() implies (#[trigger] eps[i]).watched_at is Some by {
            assert(d[i].watched_at is Some);
        }
    }
    if all_watched_spec(eps) {
        assert forall|i: int| 0 <= i < d.len() implies (#[trigger] d[i]).watched_at is Some by {
            assert(eps[i].watched_at is Some);
        }
    }
}

/// A deferred episode is the show's pick again only once every other episode of
/// the show is watched.
pub proof fn law_deferred_episode_comes_last(eps: Seq<EpisodeView>, id: Seq<char>)
    requires
        can_defer(eps, id),
        highest_position(eps) < i64::MAX,
    ensures
        is_pick(deferred(eps, id), last_named(eps, id)->0) <==> forall|j: int|
            0 <= j < eps.len() && j != last_named(eps, id)->0 ==> (#[trigger] eps[j]).watched_at is Some,
{
    lemma_last_named(eps, id);
    lemma_highest_position(eps);
    let i = last_named(eps, id)->0;
    let d = deferred(eps, id);
    if is_pick(d, i) {
        assert forall|j: int| 0 <= j < eps.len() && j != i implies (#[trigger] eps[j]).watched_at is Some by {
            assert(d[j] == eps[j]);
            assert(eps[j].position <= highest_position(eps));
        }
    }
    if forall|j: int|
        0 <= j < eps.len() && j != i ==> (#[trigger] eps[j]).watched_at is Some {
        assert forall|j: int| 0 <= j < d.len() && (#[trigger] d[j]).watched_at is None implies d[i].position
            < d[j].position || (d[i].position == d[j].position && i <= j) by {
            if j != i {
                assert(eps[j].watched_at is Some);
            }
        }
    }
}

proof fn lemma_offers_concat(a: Seq<ShowView>, b: Seq<ShowView>)
    ensures
        offers(a + b) == offers(a) + offers(b),
    decreases b.len(),
{
    if b.len() == 0 {
        assert(a + b =~= a);
        assert(offers(a) + offers(b) =~= offers(a));
    } else {
        lemma_offers_concat(a, b.drop_last());
        assert((a + b).drop_last() =~= a + b.drop_last());
        assert((a + b).last() == b.last());
        match offer(b.last()) {
            Some(c) => {
                assert((offers(a) + offers(b.drop_last())).push(c) =~= offers(a) + offers(b));
            },
            None => {},
        }
    }
}

/// A round over the union of playlists is the candidates of each, put together
/// and sorted by the one key.
pub proof fn law_union_round_merges_candidates(a: Seq<ShowView>, b: Seq<ShowView>)
    ensures
        round_of_shows(a + b) == crate::sorting::in_order::<Ordered>(
            ordering::all_resolved(offers(a)) + ordering::all_resolved(offers(b)),
        ),
{
    lemma_offers_concat(a, b);
    assert(ordering::all_resolved(offers(a) + offers(b)) =~= ordering::all_resolved(offers(a))
        + ordering::all_resolved(offers(b)));
}

/// No two shows have an episode id in common.
pub open spec fn ids_apart(shows: Seq<ShowView>) -> bool {
    forall|i: int, j: int, k: int, l: int|
        #![trigger shows[i].episodes[k], shows[j].episodes[l]]
        0 <= i < j < shows.len() && 0 <= k < shows[i].episodes.len() && 0 <= l
            < shows[j].episodes.len() ==> shows[i].episodes[k].id != shows[j].episodes[l].id
}

proof fn lemma_offered_ids_apart(shows: Seq<ShowView>)
    requires
        ids_apart(shows),
    ensures
        forall|i: int, j: int|
            #![trigger offers(shows)[i], offers(shows)[j]]
            0 <= i < j < offers(shows).len() ==> offers(shows)[i].episode_id != offers(
                shows,
            )[j].episode_id,
    decreases shows.len(),
{
    if shows.len() > 0 {
        let front = shows.drop_last();
        let last = shows.last();
        assert forall|i: int, j: int, k: int, l: int|
            #![trigger front[i].episodes[k], front[j].episodes[l]]
            0 <= i < j < front.len() && 0 <= k < front[i].episodes.len() && 0 <= l
                < front[j].episodes.len() implies front[i].episodes[k].id
            != front[j].episodes[l].id by {
            assert(shows[i].episodes[k].id != shows[j].episodes[l].id);
        }
        lemma_offered_ids_apart(front);
        let all = offers(shows);
        let some = offers(front);
        assert forall|i: int, j: int|
            #![trigger all[i], all[j]]
            0 <= i < j < all.len() implies all[i].episode_id != all[j].episode_id by {
            assert(all[i] == some[i]);
            if j < some.len() {
                assert(all[j] == some[j]);
            } else {
                assert(some.contains(some[i]));
                lemma_offers(front);
                let m = choose|m: int|
                    0 <= m < front.len() && offer(#[trigger] front[m]) == Some(some[i]);
                lemma_pick_exists(front[m].episodes);
                lemma_pick_exists(last.episodes);
                let k = choose|k: int|
                    is_pick(front[m].episodes, k) && pick(front[m].episodes) == Some(
                        front[m].episodes[k],
                    );
                let l = choose|l: int|
                    is_pick(last.episodes, l) && pick(last.episodes) == Some(last.episodes[l]);
                assert(shows[m].episodes[k].id != shows[shows.len() - 1].episodes[l].id);
            }
        }
    }
}

proof fn lemma_offers_by_shows(a: Seq<ShowView>, b: Seq<ShowView>)
    requires
        a.len() == b.len(),
        forall|i: int| 0 <= i < a.len() ==> offer(#[trigger] a[i]) == offer(b[i]),
    ensures
        offers(a) == offers(b),
    decreases a.len(),
{
    if a.len() > 0 {
        assert forall|i: int| 0 <= i < a.drop_last().len() implies offer(
            #[trigger] a.drop_last()[i],
        ) == offer(b.drop_last()[i]) by {
            assert(offer(a[i]) == offer(b[i]));
        }
        lemma_offers_by_shows(a.drop_last(), b.drop_last());
        assert(offer(a[a.len() - 1]) == offer(b[b.len() - 1]));
    }
}

/// A round over several playlists is one round over the union of their shows. It
/// is the rounds of its parts, put together and sorted by the one key; the names
/// and the playlists of the shows do not count; and where no two shows share an
/// episode id, nor does the order in which the parts are named.
pub proof fn law_union_round_is_one_round(
    a: Seq<ShowView>,
    b: Seq<ShowView>,
    renamed: Seq<ShowView>,
)
    requires
        renamed.len() == a.len(),
        forall|i: int|
            0 <= i < a.len() ==> #[trigger] renamed[i] == (ShowView {
                name: renamed[i].name,
                playlist: renamed[i].playlist,
                ..a[i]
            }),
    ensures
        round_of_shows(a + b) == crate::sorting::in_order::<Ordered>(
            round_of_shows(a) + round_of_shows(b),
        ),
        round_of_shows(renamed) == round_of_shows(a),
        ids_apart(a + b) ==> round_of_shows(b + a) == round_of_shows(a + b),
{
    law_union_round_merges_candidates(a, b);
    crate::sorting::lemma_in_order_parts::<Ordered>(
        ordering::all_resolved(offers(a)),
        ordering::all_resolved(offers(b)),
    );
    assert forall|i: int| 0 <= i < a.len() implies offer(#[trigger] a[i]) == offer(renamed[i]) by {
        assert(renamed[i].id == a[i].id);
    }
    lemma_offers_by_shows(a, renamed);
    if ids_apart(a + b) {
        lemma_offered_ids_apart(a + b);
        lemma_offers_concat(a, b);
        lemma_offers_concat(b, a);
        vstd::seq_lib::lemma_multiset_commutative(offers(a), offers(b));
        vstd::seq_lib::lemma_multiset_commutative(offers(b), offers(a));
        assert(offers(a + b).to_multiset() =~= offers(b + a).to_multiset());
        ordering::law_round_order_is_deterministic(offers(a + b), offers(b + a));
    }
}

/// The playlist that a show belongs to changes neither what it offers nor the
/// key of the offer.
pub proof fn law_playlist_does_not_change_the_offer(s: ShowView, playlist: Seq<char>)
    ensures
        offer(ShowView { playlist, ..s }) == offer(s),
{
}

} // verus!
