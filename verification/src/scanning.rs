//! What a scan of a folder comes to: which files are episodes, how their paths are
//! written, and in which order they stand.

use vstd::prelude::*;
use vstd::utf8::*;

use crate::outcomes;
use crate::paths;
use crate::scan;
use crate::scan::{KeyPartView, NamedKey, RunView};
use crate::sorting;
use crate::text;

verus! {

// ── the files ───────────────────────────────────────────────────────────

/// The extensions of video files.
pub open spec fn video_extensions() -> Seq<Seq<char>> {
    seq![
        "mp4"@,
        "mkv"@,
        "avi"@,
        "mov"@,
        "m4v"@,
        "webm"@,
        "wmv"@,
        "flv"@,
        "mpg"@,
        "mpeg"@,
        "ts"@,
        "m2ts"@,
        "ogv"@,
    ]
}

/// Whether a file is a video, by its extension in whatever case.
pub open spec fn is_video_file(f: scan::FoundFileView) -> bool {
    f.extension is Some && video_extensions().contains(text::lowercase(f.extension->0))
}

proof fn lemma_video_file(f: scan::FoundFileView)
    ensures
        is_video_file(f) == scan::is_episode(f),
{
    if f.extension is Some {
        let e = text::lowercase(f.extension->0);
        let all = video_extensions();
        assert(all[0] == "mp4"@ && all[1] == "mkv"@ && all[2] == "avi"@ && all[3] == "mov"@
            && all[4] == "m4v"@ && all[5] == "webm"@ && all[6] == "wmv"@);
        assert(all[7] == "flv"@ && all[8] == "mpg"@ && all[9] == "mpeg"@ && all[10] == "ts"@
            && all[11] == "m2ts"@ && all[12] == "ogv"@);
        assert(scan::is_video_extension(e) ==> all.contains(e));
        if all.contains(e) {
            let k = choose|k: int| 0 <= k < all.len() && all[k] == e;
            assert(0 <= k < 13);
        }
    }
}

proof fn lemma_videos_are_kept(files: Seq<scan::FoundFileView>)
    ensures
        scan::episode_paths(files) == files.filter(
            |f: scan::FoundFileView| is_video_file(f),
        ).map_values(|f: scan::FoundFileView| paths::backslashed(f.path)),
    decreases files.len(),
{
    reveal(Seq::filter);
    let keep = |f: scan::FoundFileView| is_video_file(f);
    let spell = |f: scan::FoundFileView| paths::backslashed(f.path);
    if files.len() > 0 {
        let front = files.drop_last();
        lemma_videos_are_kept(front);
        lemma_video_file(files.last());
        if is_video_file(files.last()) {
            assert(files.filter(keep) == front.filter(keep).push(files.last()));
            assert(files.filter(keep).map_values(spell) =~= front.filter(keep).map_values(
                spell,
            ).push(spell(files.last())));
        }
    } else {
        assert(files.filter(keep).map_values(spell) =~= seq![]);
    }
}

/// The episodes of a scan are the video files that were found, one for each, and no
/// other file; before they are put in order they stand as they were found. A path is
/// written with backslashes: where it had a slash, and otherwise as it was.
pub proof fn law_scan_keeps_the_videos(files: Seq<scan::FoundFileView>, path: Seq<char>, i: int)
    ensures
        ({
            let videos = files.filter(|f: scan::FoundFileView| is_video_file(f));
            let found = scan::episode_paths(files);
            let written = paths::backslashed(path);
            &&& found.len() == videos.len()
            &&& 0 <= i < videos.len() ==> found[i] == paths::backslashed(videos[i].path)
            &&& written.len() == path.len()
            &&& 0 <= i < path.len() && path[i] == '/' ==> written[i] == '\\'
            &&& 0 <= i < path.len() && path[i] != '/' ==> written[i] == path[i]
        }),
{
    lemma_videos_are_kept(files);
}

// ── the order ───────────────────────────────────────────────────────────

/// Whether a character is a decimal digit.
pub open spec fn is_decimal(c: char) -> bool {
    '0' <= c <= '9'
}

/// The number that digits spell, the first of them the highest.
pub open spec fn number_spelled(digits: Seq<char>) -> nat
    decreases digits.len(),
{
    if digits.len() == 0 {
        0
    } else {
        10 * number_spelled(digits.drop_last()) + (digits.last() as u32 - '0' as u32) as nat
    }
}

pub(crate) proof fn lemma_number_spelled(digits: Seq<char>)
    ensures
        number_spelled(digits) == text::value_of(digits),
    decreases digits.len(),
{
    if digits.len() > 0 {
        lemma_number_spelled(digits.drop_last());
    }
}

/// Whether a run of digits stands free between two texts: it is the whole of the
/// digits there.
pub open spec fn stands_free(head: Seq<char>, digits: Seq<char>, tail: Seq<char>) -> bool {
    &&& digits.len() > 0
    &&& forall|i: int| 0 <= i < digits.len() ==> is_decimal(#[trigger] digits[i])
    &&& head.len() > 0 ==> !is_decimal(head.last())
    &&& tail.len() > 0 ==> !is_decimal(tail[0])
}

proof fn lemma_runs_of_text(head: Seq<char>)
    requires
        head.len() > 0 ==> !is_decimal(head.last()),
    ensures
        scan::runs_of(head).len() >= 1,
        scan::runs_of(head).last() is Text,
    decreases head.len(),
{
    lemma_runs_are_some(head);
    if head.len() > 0 {
        lemma_runs_are_some(head.drop_last());
    }
}

proof fn lemma_runs_are_some(s: Seq<char>)
    ensures
        scan::runs_of(s).len() >= 1,
    decreases s.len(),
{
    if s.len() > 0 {
        lemma_runs_are_some(s.drop_last());
    }
}

/// Digits behind a text are a run of their own.
proof fn lemma_runs_with_digits(head: Seq<char>, digits: Seq<char>)
    requires
        stands_free(head, digits, Seq::empty()),
    ensures
        scan::runs_of(head + digits) == scan::runs_of(head).push(RunView::Digits(digits)),
    decreases digits.len(),
{
    let whole = head + digits;
    let front = digits.drop_last();
    lemma_runs_of_text(head);
    assert(whole.drop_last() =~= head + front);
    assert(whole.last() == digits.last());
    assert(is_decimal(digits[digits.len() - 1]));
    if digits.len() == 1 {
        assert(head + front =~= head);
        assert(digits =~= seq![digits.last()]);
    } else {
        assert forall|i: int| 0 <= i < front.len() implies is_decimal(#[trigger] front[i]) by {
            assert(is_decimal(digits[i]));
        }
        lemma_runs_with_digits(head, front);
        assert(front.push(digits.last()) =~= digits);
        assert(scan::runs_of(whole) =~= scan::runs_of(head).push(RunView::Digits(digits)));
    }
}

/// What comes behind digits leaves the runs up to them as they are.
proof fn lemma_runs_go_on(whole: Seq<char>, tail: Seq<char>, k: int)
    requires
        scan::runs_of(whole).len() >= 1,
        scan::runs_of(whole).last() is Digits,
        tail.len() > 0 ==> !is_decimal(tail[0]),
        0 <= k < scan::runs_of(whole).len(),
    ensures
        scan::runs_of(whole + tail).len() >= scan::runs_of(whole).len(),
        tail.len() > 0 ==> scan::runs_of(whole + tail).len() > scan::runs_of(whole).len(),
        scan::runs_of(whole + tail)[k] == scan::runs_of(whole)[k],
    decreases tail.len(),
{
    if tail.len() == 0 {
        assert(whole + tail =~= whole);
    } else {
        let front = tail.drop_last();
        lemma_runs_go_on(whole, front, k);
        assert((whole + tail).drop_last() =~= whole + front);
        assert((whole + tail).last() == tail.last());
        if front.len() == 0 {
            assert(whole + front =~= whole);
            assert(tail.last() == tail[0]);
        } else {
            assert(front[0] == tail[0]);
        }
    }
}

/// Keys that agree up to a place stand as their parts there do.
proof fn lemma_key_before_at(a: Seq<KeyPartView>, b: Seq<KeyPartView>, k: int)
    requires
        0 <= k < a.len(),
        k < b.len(),
        forall|i: int| 0 <= i < k ==> #[trigger] a[i] == b[i],
        a[k] != b[k],
        scan::part_before(a[k], b[k]),
    ensures
        scan::key_before(a, b),
    decreases k,
{
    if k > 0 {
        assert(a[0] == b[0]);
        let c = a.drop_first();
        let d = b.drop_first();
        assert forall|i: int| 0 <= i < k - 1 implies #[trigger] c[i] == d[i] by {
            assert(a[i + 1] == b[i + 1]);
        }
        lemma_key_before_at(c, d, k - 1);
    }
}

/// The part of a key that digits behind a text make.
proof fn lemma_key_at_digits(head: Seq<char>, digits: Seq<char>, tail: Seq<char>, i: int)
    requires
        stands_free(head, digits, tail),
        0 <= i < scan::runs_of(head).len(),
    ensures
        ({
            let key = scan::key_of(head + digits + tail);
            let k = scan::runs_of(head).len() as int;
            &&& key.len() > k
            &&& key[i] == scan::key_part(scan::runs_of(head)[i])
            &&& key[k] == scan::key_part(RunView::Digits(digits))
        }),
{
    let whole = head + digits;
    let k = scan::runs_of(head).len() as int;
    lemma_runs_with_digits(head, digits);
    lemma_runs_go_on(whole, tail, k);
    lemma_runs_go_on(whole, tail, i);
    let runs = scan::runs_of(whole + tail);
    assert(runs[k] == RunView::Digits(digits));
    assert(runs[i] == scan::runs_of(head)[i]);
}

proof fn lemma_lower_number_has_the_lower_key(
    head: Seq<char>,
    low: Seq<char>,
    high: Seq<char>,
    tail: Seq<char>,
    other: Seq<char>,
)
    requires
        stands_free(head, low, tail),
        stands_free(head, high, other),
        number_spelled(low) < number_spelled(high),
        number_spelled(low) < u64::MAX,
    ensures
        scan::key_before(scan::key_of(head + low + tail), scan::key_of(head + high + other)),
{
    let a = scan::key_of(head + low + tail);
    let b = scan::key_of(head + high + other);
    let k = scan::runs_of(head).len() as int;
    lemma_number_spelled(low);
    lemma_number_spelled(high);
    lemma_runs_of_text(head);
    lemma_key_at_digits(head, low, tail, 0);
    lemma_key_at_digits(head, high, other, 0);
    assert forall|i: int| 0 <= i < k implies #[trigger] a[i] == b[i] by {
        lemma_key_at_digits(head, low, tail, i);
        lemma_key_at_digits(head, high, other, i);
    }
    lemma_key_before_at(a, b, k);
}

/// A scan counts: of two names that agree up to a number, the one with the lower
/// number comes first, whatever follows and however many digits there are.
pub proof fn law_lower_number_comes_first(
    names: Seq<Seq<char>>,
    head: Seq<char>,
    low: Seq<char>,
    high: Seq<char>,
    tail: Seq<char>,
    other: Seq<char>,
    i: int,
    j: int,
)
    requires
        stands_free(head, low, tail),
        stands_free(head, high, other),
        number_spelled(low) < number_spelled(high),
        number_spelled(low) < u64::MAX,
        0 <= i < scan::natural_order(names).len(),
        0 <= j < scan::natural_order(names).len(),
        scan::natural_order(names)[i] == head + low + tail,
        scan::natural_order(names)[j] == head + high + other,
    ensures
        i < j,
{
    scan::law_natural_order(names);
    lemma_lower_number_has_the_lower_key(head, low, high, tail, other);
    scan::lemma_key_order(scan::key_of(head + low + tail), scan::key_of(head + high + other));
}

proof fn lemma_runs_without_digits(s: Seq<char>)
    requires
        forall|i: int| 0 <= i < s.len() ==> !is_decimal(#[trigger] s[i]),
    ensures
        scan::runs_of(s) == seq![RunView::Text(s)],
    decreases s.len(),
{
    if s.len() > 0 {
        let front = s.drop_last();
        assert forall|i: int| 0 <= i < front.len() implies !is_decimal(#[trigger] front[i]) by {
            assert(!is_decimal(s[i]));
        }
        lemma_runs_without_digits(front);
        assert(!is_decimal(s[s.len() - 1]));
        assert(front.push(s.last()) =~= s);
        assert(scan::runs_of(s) =~= seq![RunView::Text(s)]);
    } else {
        assert(s =~= Seq::empty());
    }
}

/// Names without numbers stand in the order of their lower-case spellings, byte by
/// byte.
pub proof fn law_names_stand_in_the_order_of_their_spelling(
    names: Seq<Seq<char>>,
    i: int,
    j: int,
)
    requires
        0 <= i < j < scan::natural_order(names).len(),
        forall|k: int|
            0 <= k < scan::natural_order(names)[i].len() ==> !is_decimal(
                #[trigger] scan::natural_order(names)[i][k],
            ),
        forall|k: int|
            0 <= k < scan::natural_order(names)[j].len() ==> !is_decimal(
                #[trigger] scan::natural_order(names)[j][k],
            ),
    ensures
        outcomes::bytes_not_behind(
            encode_utf8(text::lowercase(scan::natural_order(names)[i])),
            encode_utf8(text::lowercase(scan::natural_order(names)[j])),
        ),
{
    let x = scan::natural_order(names)[i];
    let y = scan::natural_order(names)[j];
    scan::law_natural_order(names);
    lemma_runs_without_digits(x);
    lemma_runs_without_digits(y);
    let a = scan::key_of(x);
    let b = scan::key_of(y);
    assert(a =~= seq![KeyPartView::Text(text::lowercase(x))]);
    assert(b =~= seq![KeyPartView::Text(text::lowercase(y))]);
    assert(!scan::key_before(b, a));
    text::lemma_text_order(text::lowercase(x), text::lowercase(y));
    assert(!text::text_before(text::lowercase(y), text::lowercase(x))) by {
        if text::lowercase(x) != text::lowercase(y) {
            assert(b[0] != a[0]);
        }
    }
    outcomes::lemma_bytes_not_behind(
        encode_utf8(text::lowercase(x)),
        encode_utf8(text::lowercase(y)),
    );
}

/// Putting names in order loses none and adds none: each stands there as often as it
/// was found.
pub proof fn law_scan_loses_no_name(names: Seq<Seq<char>>)
    ensures
        scan::natural_order(names).to_multiset() == names.to_multiset(),
{
    let all = scan::keyed(names);
    let name = |k: scan::NamedKeyView| k.name;
    sorting::lemma_in_order::<NamedKey>(all);
    lemma_map_multiset(sorting::in_order::<NamedKey>(all), all, name);
    assert(all.map_values(name) =~= names);
}

proof fn lemma_map_multiset<A, B>(s: Seq<A>, t: Seq<A>, f: spec_fn(A) -> B)
    requires
        s.to_multiset() == t.to_multiset(),
    ensures
        s.map_values(f).to_multiset() == t.map_values(f).to_multiset(),
    decreases s.len(),
{
    broadcast use vstd::seq_lib::group_to_multiset_ensures;

    if s.len() == 0 {
        assert(s.to_multiset().len() == s.len());
        assert(t.to_multiset().len() == t.len());
        assert(s.map_values(f) =~= t.map_values(f));
    } else {
        let x = s.last();
        assert(s.to_multiset().count(x) > 0) by {
            assert(s[s.len() - 1] == x);
            assert(s.contains(x));
        }
        assert(t.contains(x));
        let k = choose|k: int| 0 <= k < t.len() && t[k] == x;
        let rest = t.remove(k);
        assert(s.drop_last().push(x) =~= s);
        assert(s.drop_last().to_multiset() =~= s.to_multiset().remove(x));
        assert(rest.to_multiset() =~= t.to_multiset().remove(x));
        lemma_map_multiset(s.drop_last(), rest, f);
        assert(s.map_values(f) =~= s.drop_last().map_values(f).push(f(x)));
        assert(rest.map_values(f) =~= t.map_values(f).remove(k));
    }
}

} // verus!
