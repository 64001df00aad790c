//! What a scan of a show's folder finds, in the order in which it is watched.

use vstd::prelude::*;

use crate::paths;
use crate::sorting;
use crate::sorting::Sortable;
use crate::text;

verus! {

/// The extensions of video files.
pub open spec fn is_video_extension(e: Seq<char>) -> bool {
    ||| e == "mp4"@
    ||| e == "mkv"@
    ||| e == "avi"@
    ||| e == "mov"@
    ||| e == "m4v"@
    ||| e == "webm"@
    ||| e == "wmv"@
    ||| e == "flv"@
    ||| e == "mpg"@
    ||| e == "mpeg"@
    ||| e == "ts"@
    ||| e == "m2ts"@
    ||| e == "ogv"@
}

/// Whether an extension, spelled in lower case, is that of a video file.
pub fn names_video(lower: &str) -> (r: bool)
    ensures
        r == is_video_extension(lower@),
{
    text::same_text(lower, "mp4") || text::same_text(lower, "mkv") || text::same_text(
        lower,
        "avi",
    ) || text::same_text(lower, "mov") || text::same_text(lower, "m4v") || text::same_text(
        lower,
        "webm",
    ) || text::same_text(lower, "wmv") || text::same_text(lower, "flv") || text::same_text(
        lower,
        "mpg",
    ) || text::same_text(lower, "mpeg") || text::same_text(lower, "ts") || text::same_text(
        lower,
        "m2ts",
    ) || text::same_text(lower, "ogv")
}

/// Whether a file with this extension is a video, in whatever case it is spelled.
pub fn is_video(extension: Option<&str>) -> (r: bool)
    ensures
        r == match extension {
            Some(e) => is_video_extension(text::lowercase(e@)),
            None => false,
        },
{
    match extension {
        Some(e) => {
            let lower = text::to_lower(e);
            names_video(lower.as_str())
        },
        None => false,
    }
}

// ── natural order ───────────────────────────────────────────────────────

/// A run of a name: of digits, or of anything else.
#[derive(Debug, Clone)]
pub enum Run {
    Text(Vec<char>),
    Digits(Vec<char>),
}

#[verifier::ext_equal]
pub enum RunView {
    Text(Seq<char>),
    Digits(Seq<char>),
}

impl DeepView for Run {
    type V = RunView;

    open spec fn deep_view(&self) -> RunView {
        match self {
            Run::Text(s) => RunView::Text(s@),
            Run::Digits(s) => RunView::Digits(s@),
        }
    }
}

/// The runs of a name. The first is of text, empty where the name begins with a
/// digit, and text and digits take turns.
pub open spec fn runs_of(s: Seq<char>) -> Seq<RunView>
    decreases s.len(),
{
    if s.len() == 0 {
        seq![RunView::Text(Seq::empty())]
    } else {
        let runs = runs_of(s.drop_last());
        let c = s.last();
        match (runs.last(), text::is_digit(c)) {
            (RunView::Text(_), true) => runs.push(RunView::Digits(seq![c])),
            (RunView::Text(t), false) => runs.update(runs.len() - 1, RunView::Text(t.push(c))),
            (RunView::Digits(d), true) => runs.update(runs.len() - 1, RunView::Digits(d.push(c))),
            (RunView::Digits(_), false) => runs.push(RunView::Text(seq![c])),
        }
    }
}

/// A part of a key: a text in lower case, or a number.
#[derive(Debug, Clone, PartialEq, Eq)]
pub enum KeyPart {
    Text(String),
    Num(u64),
}

#[verifier::ext_equal]
pub enum KeyPartView {
    Text(Seq<char>),
    Num(u64),
}

impl DeepView for KeyPart {
    type V = KeyPartView;

    open spec fn deep_view(&self) -> KeyPartView {
        match self {
            KeyPart::Text(s) => KeyPartView::Text(s@),
            KeyPart::Num(n) => KeyPartView::Num(*n),
        }
    }
}

/// The part of the key that a run makes. A number too high for 64 bits counts as
/// the highest.
pub open spec fn key_part(r: RunView) -> KeyPartView {
    match r {
        RunView::Text(s) => KeyPartView::Text(text::lowercase(s)),
        RunView::Digits(d) => KeyPartView::Num(
            (if text::value_of(d) > u64::MAX {
                u64::MAX as nat
            } else {
                text::value_of(d)
            }) as u64,
        ),
    }
}

/// The key by which names sort naturally. It begins and ends with a text.
pub open spec fn key_of(s: Seq<char>) -> Seq<KeyPartView> {
    let runs = runs_of(s);
    let parts = runs.map_values(|r: RunView| key_part(r));
    if runs.last() is Digits {
        parts.push(KeyPartView::Text(Seq::empty()))
    } else {
        parts
    }
}

proof fn lemma_runs(s: Seq<char>)
    ensures
        runs_of(s).len() >= 1,
        forall|i: int|
            0 <= i < runs_of(s).len() ==> match #[trigger] runs_of(s)[i] {
                RunView::Digits(d) => text::all_digits(d),
                RunView::Text(_) => true,
            },
    decreases s.len(),
{
    if s.len() > 0 {
        lemma_runs(s.drop_last());
        let runs = runs_of(s.drop_last());
        let c = s.last();
        let all = runs_of(s);
        assert forall|i: int| 0 <= i < all.len() implies match #[trigger] all[i] {
            RunView::Digits(d) => text::all_digits(d),
            RunView::Text(_) => true,
        } by {
            if i < runs.len() - 1 {
                assert(all[i] == runs[i]);
            } else {
                assert(match runs[runs.len() - 1] {
                    RunView::Digits(d) => text::all_digits(d),
                    RunView::Text(_) => true,
                });
            }
        }
    }
}

fn is_ascii_digit(c: char) -> (r: bool)
    ensures
        r == text::is_digit(c),
{
    '0' <= c && c <= '9'
}

fn cut_into_runs(s: &str) -> (r: Vec<Run>)
    ensures
        r.deep_view() == runs_of(s@),
        r@.len() >= 1,
{
    let chars = text::chars_of(s);
    let mut out: Vec<Run> = Vec::new();
    out.push(Run::Text(Vec::new()));
    let mut i: usize = 0;
    proof {
        assert(chars@.take(0) =~= Seq::empty());
        assert(out@[0].deep_view() =~= RunView::Text(Seq::empty()));
        assert(out.deep_view() =~= runs_of(chars@.take(0)));
    }
    while i < chars.len()
        invariant
            i <= chars@.len(),
            out@.len() >= 1,
            out.deep_view() == runs_of(chars@.take(i as int)),
        decreases chars.len() - i,
    {
        let c = chars[i];
        let ghost before = out.deep_view();
        proof {
            assert(chars@.take(i + 1).drop_last() =~= chars@.take(i as int));
            assert(chars@.take(i + 1).last() == c);
        }
        match out.pop() {
            Some(last) => {
                proof {
                    assert(before.last() == last.deep_view());
                    assert(out.deep_view() =~= before.drop_last());
                }
                let digit = is_ascii_digit(c);
                match last {
                    Run::Text(t) => {
                        if digit {
                            let mut d: Vec<char> = Vec::new();
                            d.push(c);
                            assert(d@ =~= seq![c]);
                            out.push(Run::Text(t));
                            out.push(Run::Digits(d));
                        } else {
                            let mut t = t;
                            t.push(c);
                            out.push(Run::Text(t));
                        }
                    },
                    Run::Digits(d) => {
                        if digit {
                            let mut d = d;
                            d.push(c);
                            out.push(Run::Digits(d));
                        } else {
                            let mut t: Vec<char> = Vec::new();
                            t.push(c);
                            assert(t@ =~= seq![c]);
                            out.push(Run::Digits(d));
                            out.push(Run::Text(t));
                        }
                    },
                }
                assert(out.deep_view() =~= runs_of(chars@.take(i + 1)));
            },
            None => {},
        }
        i = i + 1;
    }
    assert(chars@.take(i as int) =~= chars@);
    out
}

/// The key by which a name sorts naturally: runs of digits count as numbers,
/// other runs as lower-case text.
pub fn natural_key(s: &str) -> (r: Vec<KeyPart>)
    ensures
        r.deep_view() == key_of(s@),
{
    let runs = cut_into_runs(s);
    let ghost rv = runs.deep_view();
    let ghost want = rv.map_values(|r: RunView| key_part(r));
    proof {
        lemma_runs(s@);
    }
    let mut out: Vec<KeyPart> = Vec::new();
    let mut i: usize = 0;
    while i < runs.len()
        invariant
            i <= runs@.len(),
            rv == runs.deep_view(),
            want == rv.map_values(|r: RunView| key_part(r)),
            forall|k: int|
                0 <= k < rv.len() ==> match #[trigger] rv[k] {
                    RunView::Digits(d) => text::all_digits(d),
                    RunView::Text(_) => true,
                },
            out.deep_view() =~= want.take(i as int),
        decreases runs.len() - i,
    {
        let ghost before = out.deep_view();
        assert(rv[i as int] == runs@[i as int].deep_view());
        let part = match &runs[i] {
            Run::Text(t) => {
                let spelled = text::text_of(t);
                KeyPart::Text(text::to_lower(spelled.as_str()))
            },
            Run::Digits(d) => KeyPart::Num(text::capped_value(d)),
        };
        out.push(part);
        assert(out.deep_view() =~= before.push(want[i as int]));
        i = i + 1;
    }
    assert(want.take(i as int) =~= want);
    let last: usize = runs.len() - 1;
    assert(rv.last() == runs@[last as int].deep_view());
    match &runs[last] {
        Run::Digits(_) => {
            out.push(KeyPart::Text(String::new()));
            assert(out.deep_view() =~= want.push(KeyPartView::Text(Seq::empty())));
        },
        Run::Text(_) => {},
    }
    out
}

/// `a` stands strictly before `b`: a text before any number, texts in the order
/// of strings, numbers in their own.
pub open spec fn part_before(a: KeyPartView, b: KeyPartView) -> bool {
    match (a, b) {
        (KeyPartView::Text(x), KeyPartView::Text(y)) => text::text_before(x, y),
        (KeyPartView::Text(_), KeyPartView::Num(_)) => true,
        (KeyPartView::Num(_), KeyPartView::Text(_)) => false,
        (KeyPartView::Num(x), KeyPartView::Num(y)) => x < y,
    }
}

/// `a` stands strictly before `b` in the lexicographic order of keys.
pub open spec fn key_before(a: Seq<KeyPartView>, b: Seq<KeyPartView>) -> bool
    decreases a.len(),
{
    if b.len() == 0 {
        false
    } else if a.len() == 0 {
        true
    } else if a[0] == b[0] {
        key_before(a.drop_first(), b.drop_first())
    } else {
        part_before(a[0], b[0])
    }
}

proof fn lemma_part_order(a: KeyPartView, b: KeyPartView)
    ensures
        !part_before(a, a),
        part_before(a, b) ==> !part_before(b, a),
        part_before(a, b) || part_before(b, a) || a == b,
{
    match (a, b) {
        (KeyPartView::Text(x), KeyPartView::Text(y)) => {
            text::lemma_text_order(x, y);
        },
        _ => {},
    }
    match a {
        KeyPartView::Text(x) => {
            text::lemma_text_order(x, x);
        },
        _ => {},
    }
}

proof fn lemma_part_transitive(a: KeyPartView, b: KeyPartView, c: KeyPartView)
    requires
        part_before(a, b),
        part_before(b, c),
    ensures
        part_before(a, c),
{
    match (a, b, c) {
        (KeyPartView::Text(x), KeyPartView::Text(y), KeyPartView::Text(z)) => {
            text::lemma_text_before_transitive(x, y, z);
        },
        _ => {},
    }
}

pub proof fn lemma_key_order(a: Seq<KeyPartView>, b: Seq<KeyPartView>)
    ensures
        !key_before(a, a),
        key_before(a, b) ==> !key_before(b, a),
        key_before(a, b) || key_before(b, a) || a == b,
    decreases a.len(),
{
    if a.len() > 0 && b.len() > 0 {
        lemma_part_order(a[0], b[0]);
        lemma_key_order(a.drop_first(), b.drop_first());
        lemma_key_order(a.drop_first(), a.drop_first());
        if a[0] == b[0] && a.drop_first() == b.drop_first() {
            assert(a =~= seq![a[0]] + a.drop_first());
            assert(b =~= seq![b[0]] + b.drop_first());
        }
    } else if a.len() > 0 {
        lemma_key_order(a.drop_first(), a.drop_first());
    } else if b.len() == 0 {
        assert(a =~= b);
    }
}

pub proof fn lemma_key_transitive(
    a: Seq<KeyPartView>,
    b: Seq<KeyPartView>,
    c: Seq<KeyPartView>,
)
    requires
        key_before(a, b),
        key_before(b, c),
    ensures
        key_before(a, c),
    decreases a.len(),
{
    if a.len() > 0 {
        if a[0] == b[0] && b[0] == c[0] {
            lemma_key_transitive(a.drop_first(), b.drop_first(), c.drop_first());
        } else if a[0] != b[0] && b[0] != c[0] {
            lemma_part_transitive(a[0], b[0], c[0]);
            lemma_part_order(a[0], b[0]);
            lemma_part_order(b[0], c[0]);
            lemma_part_order(a[0], c[0]);
        }
    }
}

fn rank_part(a: &KeyPart, b: &KeyPart) -> (r: text::Rank)
    ensures
        r == text::Rank::Below <==> part_before(a.deep_view(), b.deep_view()),
        r == text::Rank::Above <==> part_before(b.deep_view(), a.deep_view()),
        r == text::Rank::Same <==> a.deep_view() == b.deep_view(),
{
    proof {
        lemma_part_order(a.deep_view(), b.deep_view());
        lemma_part_order(b.deep_view(), a.deep_view());
    }
    match (a, b) {
        (KeyPart::Text(x), KeyPart::Text(y)) => text::rank_text(x.as_str(), y.as_str()),
        (KeyPart::Text(_), KeyPart::Num(_)) => text::Rank::Below,
        (KeyPart::Num(_), KeyPart::Text(_)) => text::Rank::Above,
        (KeyPart::Num(x), KeyPart::Num(y)) => if *x < *y {
            text::Rank::Below
        } else if *y < *x {
            text::Rank::Above
        } else {
            text::Rank::Same
        },
    }
}

/// A name with the key that gives it its place.
#[derive(Debug, Clone)]
pub struct NamedKey {
    pub key: Vec<KeyPart>,
    pub name: String,
}

#[verifier::ext_equal]
pub struct NamedKeyView {
    pub key: Seq<KeyPartView>,
    pub name: Seq<char>,
}

impl DeepView for NamedKey {
    type V = NamedKeyView;

    open spec fn deep_view(&self) -> NamedKeyView {
        NamedKeyView { key: self.key.deep_view(), name: self.name@ }
    }
}

impl Sortable for NamedKey {
    /// By key.
    open spec fn leq(a: NamedKeyView, b: NamedKeyView) -> bool {
        !key_before(b.key, a.key)
    }

    proof fn lemma_total(a: NamedKeyView, b: NamedKeyView) {
        lemma_key_order(a.key, b.key);
    }

    proof fn lemma_transitive(a: NamedKeyView, b: NamedKeyView, c: NamedKeyView) {
        lemma_key_order(a.key, b.key);
        lemma_key_order(b.key, c.key);
        lemma_key_order(a.key, c.key);
        if key_before(a.key, b.key) && key_before(b.key, c.key) {
            lemma_key_transitive(a.key, b.key, c.key);
        }
    }

    fn at_most(&self, other: &Self) -> (r: bool) {
        let a = &other.key;
        let b = &self.key;
        let ghost av = a.deep_view();
        let ghost bv = b.deep_view();
        let mut i: usize = 0;
        proof {
            assert(av.skip(0) =~= av);
            assert(bv.skip(0) =~= bv);
        }
        while i < a.len() && i < b.len()
            invariant
                i <= a@.len(),
                i <= b@.len(),
                av == a.deep_view(),
                bv == b.deep_view(),
                av == other.key.deep_view(),
                bv == self.key.deep_view(),
                key_before(av, bv) == key_before(av.skip(i as int), bv.skip(i as int)),
            decreases a.len() - i,
        {
            proof {
                assert(av[i as int] == a@[i as int].deep_view());
                assert(bv[i as int] == b@[i as int].deep_view());
                assert(av.skip(i as int).drop_first() =~= av.skip(i + 1));
                assert(bv.skip(i as int).drop_first() =~= bv.skip(i + 1));
                assert(av.skip(i as int)[0] == av[i as int]);
                assert(bv.skip(i as int)[0] == bv[i as int]);
                lemma_part_order(av[i as int], bv[i as int]);
            }
            match rank_part(&a[i], &b[i]) {
                text::Rank::Below => {
                    return false;
                },
                text::Rank::Above => {
                    return true;
                },
                text::Rank::Same => {},
            }
            i = i + 1;
        }
        !(i < b.len())
    }
}

/// Names with their keys.
pub open spec fn keyed(names: Seq<Seq<char>>) -> Seq<NamedKeyView> {
    names.map_values(|n: Seq<char>| NamedKeyView { key: key_of(n), name: n })
}

/// The names in natural order.
pub open spec fn natural_order(names: Seq<Seq<char>>) -> Seq<Seq<char>> {
    sorting::in_order::<NamedKey>(keyed(names)).map_values(|k: NamedKeyView| k.name)
}

/// A file that a walk of a folder found: its path from there, and its extension
/// where it has one.
#[derive(Debug, Clone)]
pub struct FoundFile {
    pub path: String,
    pub extension: Option<String>,
}

#[verifier::ext_equal]
pub struct FoundFileView {
    pub path: Seq<char>,
    pub extension: Option<Seq<char>>,
}

impl DeepView for FoundFile {
    type V = FoundFileView;

    open spec fn deep_view(&self) -> FoundFileView {
        FoundFileView { path: self.path@, extension: self.extension.deep_view() }
    }
}

pub open spec fn is_episode(f: FoundFileView) -> bool {
    f.extension is Some && is_video_extension(text::lowercase(f.extension->0))
}

/// The paths of the video files among those that were found, with backslashes.
pub open spec fn episode_paths(files: Seq<FoundFileView>) -> Seq<Seq<char>>
    decreases files.len(),
{
    if files.len() == 0 {
        seq![]
    } else {
        let before = episode_paths(files.drop_last());
        if is_episode(files.last()) {
            before.push(paths::backslashed(files.last().path))
        } else {
            before
        }
    }
}

/// The episodes among the files that a walk of a show's folder found, by their
/// paths from there, in natural order. Other files are left out.
pub fn scan_episodes(found: &[FoundFile]) -> (r: Vec<String>)
    ensures
        r.deep_view() == natural_order(episode_paths(found.deep_view())),
{
    let ghost views = found.deep_view();
    let mut out: Vec<String> = Vec::new();
    let mut i: usize = 0;
    assert(out.deep_view() =~= episode_paths(views.take(0)));
    while i < found.len()
        invariant
            i <= found@.len(),
            views == found.deep_view(),
            out.deep_view() == episode_paths(views.take(i as int)),
        decreases found.len() - i,
    {
        let ghost before = out.deep_view();
        assert(views[i as int] == found@[i as int].deep_view());
        assert(views.take(i + 1).drop_last() =~= views.take(i as int));
        assert(views.take(i + 1).last() == views[i as int]);
        let f = &found[i];
        let video = match &f.extension {
            Some(e) => is_video(Some(e.as_str())),
            None => false,
        };
        if video {
            let path = paths::with_backslashes(f.path.as_str());
            out.push(path);
            assert(out.deep_view() =~= before.push(path@));
        }
        i = i + 1;
    }
    assert(views.take(i as int) =~= views);
    put_in_natural_order(out)
}

/// Puts names into natural order, so that a second episode comes before a tenth.
pub fn put_in_natural_order(found: Vec<String>) -> (r: Vec<String>)
    ensures
        r.deep_view() == natural_order(found.deep_view()),
{
    let ghost names = found.deep_view();
    let ghost want = keyed(names);
    let mut all: Vec<NamedKey> = Vec::new();
    let mut i: usize = 0;
    while i < found.len()
        invariant
            i <= found@.len(),
            names == found.deep_view(),
            want == keyed(names),
            all.deep_view() =~= want.take(i as int),
        decreases found.len() - i,
    {
        let ghost before = all.deep_view();
        let n = NamedKey { key: natural_key(found[i].as_str()), name: found[i].clone() };
        all.push(n);
        proof {
            assert(names[i as int] == found@[i as int]@);
            assert(n.deep_view() == want[i as int]);
            assert(all.deep_view() =~= before.push(want[i as int]));
        }
        i = i + 1;
    }
    assert(want.take(i as int) =~= want);
    let ordered = sorting::stable_sort(all);
    let ghost sorted = ordered.deep_view();
    let ghost paths = sorted.map_values(|k: NamedKeyView| k.name);
    let mut out: Vec<String> = Vec::new();
    let mut k: usize = 0;
    while k < ordered.len()
        invariant
            k <= ordered@.len(),
            sorted == ordered.deep_view(),
            paths == sorted.map_values(|k: NamedKeyView| k.name),
            out.deep_view() =~= paths.take(k as int),
        decreases ordered.len() - k,
    {
        let ghost before = out.deep_view();
        out.push(ordered[k].name.clone());
        proof {
            assert(sorted[k as int] == ordered@[k as int].deep_view());
            assert(out.deep_view() =~= before.push(paths[k as int]));
        }
        k = k + 1;
    }
    assert(paths.take(k as int) =~= paths);
    out
}

/// A scan keeps every path that was found, and puts none behind one with a later
/// key.
pub proof fn law_natural_order(names: Seq<Seq<char>>)
    ensures
        natural_order(names).len() == names.len(),
        forall|n: Seq<char>| #[trigger]
            natural_order(names).contains(n) <==> names.contains(n),
        forall|i: int, j: int|
            #![trigger natural_order(names)[i], natural_order(names)[j]]
            0 <= i < j < names.len() ==> !key_before(
                key_of(natural_order(names)[j]),
                key_of(natural_order(names)[i]),
            ),
{
    let all = keyed(names);
    let sorted = sorting::in_order::<NamedKey>(all);
    let out = natural_order(names);
    sorting::lemma_in_order::<NamedKey>(all);
    assert forall|i: int| 0 <= i < sorted.len() implies (#[trigger] sorted[i]).key == key_of(
        out[i],
    ) by {
        assert(sorted.contains(sorted[i]));
        let k = choose|k: int| 0 <= k < all.len() && all[k] == sorted[i];
        assert(all[k].key == key_of(all[k].name));
    }
    assert forall|n: Seq<char>| #[trigger] out.contains(n) <==> names.contains(n) by {
        if out.contains(n) {
            let i = choose|i: int| 0 <= i < out.len() && out[i] == n;
            assert(sorted.contains(sorted[i]));
            let k = choose|k: int| 0 <= k < all.len() && all[k] == sorted[i];
            assert(names[k] == n);
        }
        if names.contains(n) {
            let k = choose|k: int| 0 <= k < names.len() && names[k] == n;
            assert(all.contains(all[k]));
            assert(sorted.contains(all[k]));
            let i = choose|i: int| 0 <= i < sorted.len() && sorted[i] == all[k];
            assert(out[i] == n);
        }
    }
    assert forall|i: int, j: int|
        #![trigger out[i], out[j]]
        0 <= i < j < names.len() implies !key_before(key_of(out[j]), key_of(out[i])) by {
        assert(NamedKey::leq(sorted[i], sorted[j]));
    }
}

} // verus!
