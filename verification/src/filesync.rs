//! Bringing the files of a round into the local cache: what is asked and done
//! for one entry, and what the report says of all of them.

use vstd::prelude::*;

use crate::rounds;
use crate::rounds::RoundEntry;
use crate::text;

verus! {

/// So many problems are told at most.
pub const PROBLEM_LIMIT: usize = 5;

/// A file that could not be had.
#[derive(Debug, Clone)]
pub struct FileSyncProblem {
    pub episode_id: String,
    pub show_name: String,
    pub source_path: String,
    pub local_path: String,
    pub reason: String,
}

#[verifier::ext_equal]
pub struct ProblemView {
    pub episode_id: Seq<char>,
    pub show_name: Seq<char>,
    pub source_path: Seq<char>,
    pub local_path: Seq<char>,
    pub reason: Seq<char>,
}

impl DeepView for FileSyncProblem {
    type V = ProblemView;

    open spec fn deep_view(&self) -> ProblemView {
        ProblemView {
            episode_id: self.episode_id@,
            show_name: self.show_name@,
            source_path: self.source_path@,
            local_path: self.local_path@,
            reason: self.reason@,
        }
    }
}

/// What became of the files of a round.
#[derive(Debug, Clone)]
pub struct FileSyncReport {
    pub copied: usize,
    pub cached: usize,
    pub missing: usize,
    pub failed: usize,
    pub problems: Vec<FileSyncProblem>,
}

#[verifier::ext_equal]
pub struct ReportView {
    pub copied: nat,
    pub cached: nat,
    pub missing: nat,
    pub failed: nat,
    pub problems: Seq<ProblemView>,
}

impl DeepView for FileSyncReport {
    type V = ReportView;

    open spec fn deep_view(&self) -> ReportView {
        ReportView {
            copied: self.copied as nat,
            cached: self.cached as nat,
            missing: self.missing as nat,
            failed: self.failed as nat,
            problems: self.problems.deep_view(),
        }
    }
}

impl ReportView {
    /// How many files it tells of.
    pub open spec fn files(self) -> nat {
        self.copied + self.cached + self.missing + self.failed
    }

    /// Some file could not be had.
    pub open spec fn incomplete(self) -> bool {
        self.missing > 0 || self.failed > 0
    }

    /// The report with one more problem, where there is room for it.
    pub open spec fn telling(self, p: ProblemView) -> ReportView {
        if self.problems.len() >= PROBLEM_LIMIT {
            self
        } else {
            ReportView { problems: self.problems.push(p), ..self }
        }
    }
}

pub open spec fn empty_report() -> ReportView {
    ReportView { copied: 0, cached: 0, missing: 0, failed: 0, problems: Seq::empty() }
}

/// A count with its word, where it is not zero.
pub open spec fn part(parts: Seq<Seq<char>>, n: nat, word: Seq<char>) -> Seq<Seq<char>> {
    if n > 0 {
        parts.push(text::decimal(n) + word)
    } else {
        parts
    }
}

pub open spec fn summary_of(r: ReportView) -> Seq<char> {
    let parts = part(
        part(part(part(Seq::empty(), r.copied, " copied"@), r.cached, " cached"@), r.missing, " missing"@),
        r.failed,
        " failed"@,
    );
    if parts.len() == 0 {
        "no files needed"@
    } else {
        text::joined_with(parts, ", "@)
    }
}

fn add_part(parts: &mut Vec<String>, n: usize, word: &str)
    ensures
        final(parts).deep_view() == part(old(parts).deep_view(), n as nat, word@),
{
    if n > 0 {
        let ghost before = parts.deep_view();
        let told = text::spell(n as u64).concat(word);
        parts.push(told);
        assert(parts.deep_view() =~= before.push(told@));
    }
}

impl Default for FileSyncReport {
    fn default() -> (r: FileSyncReport)
        ensures
            r.deep_view() == empty_report(),
    {
        FileSyncReport { copied: 0, cached: 0, missing: 0, failed: 0, problems: Vec::new() }
    }
}

impl FileSyncReport {
    pub fn incomplete(&self) -> (r: bool)
        ensures
            r == self.deep_view().incomplete(),
    {
        self.missing > 0 || self.failed > 0
    }

    /// The counts that are not zero, in words.
    pub fn summary(&self) -> (r: String)
        ensures
            r@ == summary_of(self.deep_view()),
    {
        let mut parts: Vec<String> = Vec::new();
        assert(parts.deep_view() =~= Seq::empty());
        add_part(&mut parts, self.copied, " copied");
        add_part(&mut parts, self.cached, " cached");
        add_part(&mut parts, self.missing, " missing");
        add_part(&mut parts, self.failed, " failed");
        if parts.len() == 0 {
            "no files needed".to_owned()
        } else {
            text::join_text(parts.as_slice(), ", ")
        }
    }
}

// ── one entry ───────────────────────────────────────────────────────────

/// What is to be done next for an entry.
#[derive(Debug, Clone, Copy, PartialEq, Eq, Structural)]
pub enum FileAction {
    /// See whether the cache has the file.
    CheckCache,
    /// See whether the source is there.
    CheckSource,
    /// Make the folder that the file goes to.
    MakeFolder,
    /// Say that the file is copied, and copy it.
    Copy,
    /// The entry is done.
    Done,
}

/// What came of the last action.
#[derive(Debug)]
pub enum FileEvent {
    Begin,
    Cached(bool),
    Source(bool),
    Folder(Result<(), String>),
    Copied(Result<(), String>),
}

pub open spec fn problem_of(
    entry: rounds::RoundEntryView,
    local_path: Seq<char>,
    reason: Seq<char>,
) -> ProblemView {
    ProblemView {
        episode_id: entry.episode_id,
        show_name: entry.show_name,
        source_path: entry.nas_absolute_path,
        local_path,
        reason,
    }
}

/// What a step for an entry does: a cached file is used, a missing one or one
/// that cannot be copied is told, any other is copied.
pub open spec fn file_stepped(
    report: ReportView,
    entry: rounds::RoundEntryView,
    local_path: Seq<char>,
    event: FileEvent,
) -> (ReportView, FileAction) {
    match event {
        FileEvent::Begin => (report, FileAction::CheckCache),
        FileEvent::Cached(true) => (
            ReportView { cached: report.cached + 1, ..report },
            FileAction::Done,
        ),
        FileEvent::Cached(false) => (report, FileAction::CheckSource),
        FileEvent::Source(true) => (report, FileAction::MakeFolder),
        FileEvent::Source(false) => (
            ReportView { missing: report.missing + 1, ..report }.telling(
                problem_of(entry, local_path, "source file missing"@),
            ),
            FileAction::Done,
        ),
        FileEvent::Folder(Ok(_)) => (report, FileAction::Copy),
        FileEvent::Folder(Err(e)) => (
            ReportView { failed: report.failed + 1, ..report }.telling(
                problem_of(entry, local_path, "failed to create local folder: "@ + e@),
            ),
            FileAction::Done,
        ),
        FileEvent::Copied(Ok(_)) => (
            ReportView { copied: report.copied + 1, ..report },
            FileAction::Done,
        ),
        FileEvent::Copied(Err(e)) => (
            ReportView { failed: report.failed + 1, ..report }.telling(
                problem_of(entry, local_path, "copy failed: "@ + e@),
            ),
            FileAction::Done,
        ),
    }
}

/// Tells a problem, where there is room for it.
pub fn record_file_sync_problem(
    report: &mut FileSyncReport,
    entry: &RoundEntry,
    local_path: &str,
    reason: &str,
)
    ensures
        final(report).deep_view() == old(report).deep_view().telling(
            problem_of(entry.deep_view(), local_path@, reason@),
        ),
{
    if report.problems.len() >= PROBLEM_LIMIT {
        return;
    }
    let ghost before = report.problems.deep_view();
    let p = FileSyncProblem {
        episode_id: entry.episode_id.clone(),
        show_name: entry.show_name.clone(),
        source_path: entry.nas_absolute_path.clone(),
        local_path: local_path.to_owned(),
        reason: reason.to_owned(),
    };
    report.problems.push(p);
    assert(report.problems.deep_view() =~= before.push(p.deep_view()));
}

/// Takes what came of the last action for an entry, and says what to do next.
pub fn file_step(
    report: &mut FileSyncReport,
    entry: &RoundEntry,
    local_path: &str,
    event: FileEvent,
) -> (r: FileAction)
    requires
        old(report).deep_view().files() < usize::MAX,
    ensures
        (final(report).deep_view(), r) == file_stepped(
            old(report).deep_view(),
            entry.deep_view(),
            local_path@,
            event,
        ),
{
    match event {
        FileEvent::Begin => FileAction::CheckCache,
        FileEvent::Cached(cached) => {
            if cached {
                report.cached = report.cached + 1;
                FileAction::Done
            } else {
                FileAction::CheckSource
            }
        },
        FileEvent::Source(found) => {
            if found {
                FileAction::MakeFolder
            } else {
                report.missing = report.missing + 1;
                record_file_sync_problem(report, entry, local_path, "source file missing");
                FileAction::Done
            }
        },
        FileEvent::Folder(made) => match made {
            Ok(_) => FileAction::Copy,
            Err(e) => {
                report.failed = report.failed + 1;
                let reason = "failed to create local folder: ".to_owned().concat(e.as_str());
                record_file_sync_problem(report, entry, local_path, reason.as_str());
                FileAction::Done
            },
        },
        FileEvent::Copied(copied) => match copied {
            Ok(_) => {
                report.copied = report.copied + 1;
                FileAction::Done
            },
            Err(e) => {
                report.failed = report.failed + 1;
                let reason = "copy failed: ".to_owned().concat(e.as_str());
                record_file_sync_problem(report, entry, local_path, reason.as_str());
                FileAction::Done
            },
        },
    }
}

// ── notices ─────────────────────────────────────────────────────────────

/// A line over the picture, and for how many milliseconds.
#[derive(Debug, Clone)]
pub struct Notice {
    pub text: String,
    pub duration_ms: i64,
}

#[verifier::ext_equal]
pub struct NoticeView {
    pub text: Seq<char>,
    pub duration_ms: i64,
}

impl DeepView for Notice {
    type V = NoticeView;

    open spec fn deep_view(&self) -> NoticeView {
        NoticeView { text: self.text@, duration_ms: self.duration_ms }
    }
}

/// What is shown while the cache is checked.
pub fn checking_notice() -> (r: Notice)
    ensures
        r.deep_view() == (NoticeView { text: "Checking round cache..."@, duration_ms: 10000 }),
{
    Notice { text: "Checking round cache...".to_owned(), duration_ms: 10000 }
}

/// What is shown while a file is copied.
pub fn copying_notice(entry: &RoundEntry) -> (r: Notice)
    ensures
        r.deep_view() == (NoticeView {
            text: "Copying "@ + entry.show_name@ + "..."@,
            duration_ms: 5000,
        }),
{
    let mut text = "Copying ".to_owned();
    text.append(entry.show_name.as_str());
    text.append("...");
    Notice { text, duration_ms: 5000 }
}

pub open spec fn outcome_notice(r: ReportView) -> NoticeView {
    if r.incomplete() {
        NoticeView {
            text: "Round file sync incomplete: "@ + summary_of(r),
            duration_ms: 8000,
        }
    } else {
        NoticeView {
            text: "Round files sync complete: "@ + summary_of(r),
            duration_ms: 3000,
        }
    }
}

/// What is shown when the files of the round are done.
pub fn done_notice(report: &FileSyncReport) -> (r: Notice)
    ensures
        r.deep_view() == outcome_notice(report.deep_view()),
{
    let summary = report.summary();
    if report.incomplete() {
        Notice {
            text: "Round file sync incomplete: ".to_owned().concat(summary.as_str()),
            duration_ms: 8000,
        }
    } else {
        Notice {
            text: "Round files sync complete: ".to_owned().concat(summary.as_str()),
            duration_ms: 3000,
        }
    }
}

// ── laws ────────────────────────────────────────────────────────────────

/// An entry that is done is told exactly once, and one that is not done is not
/// told yet.
pub proof fn law_every_file_is_told_once(
    report: ReportView,
    entry: rounds::RoundEntryView,
    local_path: Seq<char>,
    event: FileEvent,
)
    ensures
        ({
            let (after, action) = file_stepped(report, entry, local_path, event);
            &&& after.files() == report.files() + if action is Done {
                1nat
            } else {
                0nat
            }
            &&& action !is Done ==> after == report
        }),
{
}

/// A report tells problems exactly where it is incomplete, and never more than
/// the limit.
pub proof fn law_problems_follow_the_counts(
    report: ReportView,
    entry: rounds::RoundEntryView,
    local_path: Seq<char>,
    event: FileEvent,
)
    requires
        report.incomplete() == (report.problems.len() > 0),
        report.problems.len() <= PROBLEM_LIMIT,
    ensures
        ({
            let (after, action) = file_stepped(report, entry, local_path, event);
            &&& after.incomplete() == (after.problems.len() > 0)
            &&& after.problems.len() <= PROBLEM_LIMIT
        }),
{
}

/// Where no file is told, the summary says that nothing was needed.
pub proof fn law_empty_summary(r: ReportView)
    ensures
        r.files() == 0 ==> summary_of(r) == "no files needed"@,
{
}

} // verus!
