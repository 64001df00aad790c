//! Paths as the local cache of a round needs them: where an episode lies under
//! the cache's folder, and when two spellings mean the same file.

use vstd::prelude::*;
use vstd::utf8::*;

use crate::text;

verus! {

/// The path with every slash turned into a backslash.
pub open spec fn backslashed(path: Seq<char>) -> Seq<char> {
    Seq::new(
        path.len(),
        |i: int|
            if path[i] == '/' {
                '\\'
            } else {
                path[i]
            },
    )
}

/// The parts that are not empty.
pub open spec fn nonempty(parts: Seq<Seq<char>>) -> Seq<Seq<char>>
    decreases parts.len(),
{
    if parts.len() == 0 {
        Seq::empty()
    } else if parts.last().len() == 0 {
        nonempty(parts.drop_last())
    } else {
        nonempty(parts.drop_last()).push(parts.last())
    }
}

/// The names on a path, whichever slashes stand between them.
pub open spec fn names_on(path: Seq<char>) -> Seq<Seq<char>> {
    nonempty(text::split(backslashed(path), '\\'))
}

/// Where an episode lies under the cache's folder: in the folder of its show,
/// then along its own path.
pub open spec fn local_path(show_name: Seq<char>, relative_path: Seq<char>) -> Seq<Seq<char>> {
    seq![show_name] + names_on(relative_path)
}

/// Turns the slashes of a path into backslashes.
pub fn with_backslashes(path: &str) -> (r: String)
    ensures
        r@ == backslashed(path@),
{
    let chars = text::chars_of(path);
    let mut out: Vec<char> = Vec::new();
    let mut i: usize = 0;
    while i < chars.len()
        invariant
            i <= chars@.len(),
            chars@ == path@,
            out@ == backslashed(path@).take(i as int),
        decreases chars.len() - i,
    {
        let c: char = if chars[i] == '/' {
            '\\'
        } else {
            chars[i]
        };
        out.push(c);
        assert(out@ =~= backslashed(path@).take(i + 1));
        i = i + 1;
    }
    assert(out@ =~= backslashed(path@));
    text::text_of(&out)
}

/// The names under the cache's folder that lead to an episode.
pub fn get_local_path(show_name: &str, relative_path: &str) -> (r: Vec<String>)
    ensures
        r.deep_view() == local_path(show_name@, relative_path@),
{
    let spelled = with_backslashes(relative_path);
    let parts = text::split_text(spelled.as_str(), '\\');
    let ghost views = parts.deep_view();
    let mut out: Vec<String> = Vec::new();
    out.push(show_name.to_owned());
    let mut i: usize = 0;
    assert(out.deep_view() =~= seq![show_name@] + nonempty(views.take(0)));
    while i < parts.len()
        invariant
            i <= parts@.len(),
            views == parts.deep_view(),
            out.deep_view() == seq![show_name@] + nonempty(views.take(i as int)),
        decreases parts.len() - i,
    {
        proof {
            assert(views[i as int] == parts@[i as int]@);
            assert(views.take(i + 1).drop_last() =~= views.take(i as int));
            assert(views.take(i + 1).last() == views[i as int]);
        }
        if !parts[i].as_str().is_empty() {
            let ghost before = out.deep_view();
            out.push(parts[i].clone());
            assert(out.deep_view() =~= before.push(views[i as int]));
            assert(out.deep_view() =~= seq![show_name@] + nonempty(views.take(i + 1)));
        }
        i = i + 1;
    }
    assert(views.take(i as int) =~= views);
    out
}

// ── comparing ───────────────────────────────────────────────────────────

/// The path without the prefix that asks Windows to take it literally.
pub open spec fn plain(path: Seq<char>) -> Seq<char> {
    match text::after_prefix(path, "\\\\?\\UNC\\"@) {
        Some(rest) => "\\\\"@ + rest,
        None => match text::after_prefix(path, "\\\\?\\"@) {
            Some(rest) => rest,
            None => path,
        },
    }
}

/// A letter from `A` to `Z` made small.
pub open spec fn small(c: char) -> char {
    if 'A' <= c && c <= 'Z' {
        ((c as u8) + 32) as char
    } else {
        c
    }
}

pub open spec fn all_small(s: Seq<char>) -> Seq<char> {
    Seq::new(s.len(), |i: int| small(s[i]))
}

/// The path without backslashes at its end, as far as it is longer than the root
/// of a drive.
pub open spec fn untrailed(s: Seq<char>) -> Seq<char>
    decreases s.len(),
{
    if s.len() > 0 && s.last() == '\\' && encode_utf8(s).len() > 3 {
        untrailed(s.drop_last())
    } else {
        s
    }
}

/// The key under which a path is compared. On Windows capitals do not count.
pub open spec fn path_key(path: Seq<char>, windows: bool) -> Seq<char> {
    let key = plain(backslashed(path));
    untrailed(
        if windows {
            all_small(key)
        } else {
            key
        },
    )
}

fn to_small(c: char) -> (r: char)
    ensures
        r == small(c),
{
    if 'A' <= c && c <= 'Z' {
        ((c as u8) + 32) as char
    } else {
        c
    }
}

fn without_prefix(path: String) -> (r: String)
    ensures
        r@ == plain(path@),
{
    match text::strip_start(path.as_str(), "\\\\?\\UNC\\") {
        Some(rest) => "\\\\".to_owned().concat(rest.as_str()),
        None => match text::strip_start(path.as_str(), "\\\\?\\") {
            Some(rest) => rest,
            None => path,
        },
    }
}

/// The key under which a path, with its existing part resolved, is compared.
pub fn comparable_path_key(path: &str, windows: bool) -> (r: String)
    ensures
        r@ == path_key(path@, windows),
{
    let key = without_prefix(with_backslashes(path));
    let chars = text::chars_of(key.as_str());
    let mut out: Vec<char> = Vec::new();
    let ghost want = if windows {
        all_small(key@)
    } else {
        key@
    };
    let mut i: usize = 0;
    while i < chars.len()
        invariant
            i <= chars@.len(),
            chars@ == key@,
            want == if windows {
                all_small(key@)
            } else {
                key@
            },
            out@ == want.take(i as int),
        decreases chars.len() - i,
    {
        let c: char = if windows {
            to_small(chars[i])
        } else {
            chars[i]
        };
        out.push(c);
        assert(out@ =~= want.take(i + 1));
        i = i + 1;
    }
    assert(out@ =~= want);
    let mut spelled = text::text_of(&out);
    while out.len() > 0 && out[out.len() - 1] == '\\' && spelled.as_str().as_bytes().len() > 3
        invariant
            spelled@ == out@,
            untrailed(out@) == untrailed(want),
        decreases out.len(),
    {
        let ghost before = out@;
        out.pop();
        assert(out@ =~= before.drop_last());
        spelled = text::text_of(&out);
    }
    spelled
}

// ── resolving ───────────────────────────────────────────────────────────

/// What the disk says of a path or of one of the folders above it: what it
/// resolves to, where it exists; and the name it ends in, where it ends in one.
#[derive(Debug, Clone)]
pub struct Ancestor {
    pub resolved: Option<String>,
    pub name: Option<String>,
}

#[verifier::ext_equal]
pub struct AncestorView {
    pub resolved: Option<Seq<char>>,
    pub name: Option<Seq<char>>,
}

impl DeepView for Ancestor {
    type V = AncestorView;

    open spec fn deep_view(&self) -> AncestorView {
        AncestorView { resolved: self.resolved.deep_view(), name: self.name.deep_view() }
    }
}

/// A folder and a name in it. No separator is added where one stands already.
pub open spec fn beneath(folder: Seq<char>, name: Seq<char>, windows: bool) -> Seq<char> {
    let ends = folder.len() > 0 && (folder.last() == '/' || windows && folder.last() == '\\');
    if ends || folder.len() == 0 {
        folder + name
    } else if windows {
        folder.push('\\') + name
    } else {
        folder.push('/') + name
    }
}

/// A folder and names that lead down from it.
pub open spec fn all_beneath(folder: Seq<char>, names: Seq<Seq<char>>, windows: bool) -> Seq<char>
    decreases names.len(),
{
    if names.len() == 0 {
        folder
    } else {
        beneath(all_beneath(folder, names.drop_last(), windows), names.last(), windows)
    }
}

/// The path with its existing part resolved, given what the disk says of it and of
/// the folders above it, upwards: the first that exists, with the names below it.
/// As it is, where none exists or one above it has no name.
pub open spec fn resolved_path(
    path: Seq<char>,
    upwards: Seq<AncestorView>,
    below: Seq<Seq<char>>,
    windows: bool,
) -> Seq<char>
    decreases upwards.len(),
{
    if upwards.len() == 0 {
        path
    } else {
        match (upwards[0].resolved, upwards[0].name) {
            (Some(found), _) => all_beneath(found, below, windows),
            (None, Some(name)) => resolved_path(
                path,
                upwards.skip(1),
                seq![name] + below,
                windows,
            ),
            (None, None) => path,
        }
    }
}

fn put_beneath(folder: String, name: &str, windows: bool) -> (r: String)
    ensures
        r@ == beneath(folder@, name@, windows),
{
    let chars = text::chars_of(folder.as_str());
    let mut out = folder;
    if chars.len() > 0 {
        let last: char = chars[chars.len() - 1];
        if !(last == '/' || windows && last == '\\') {
            if windows {
                out.push('\\');
            } else {
                out.push('/');
            }
        }
    }
    out.append(name);
    out
}

/// Resolves the part of a path that exists. `upwards` is what the disk says of the
/// path and of the folders above it, as far as the first that exists.
pub fn canonicalize_existing_ancestor(path: &str, upwards: &[Ancestor], windows: bool) -> (r: String)
    ensures
        r@ == resolved_path(path@, upwards.deep_view(), Seq::empty(), windows),
{
    let ghost all = upwards.deep_view();
    // The names passed on the way up, the last one first.
    let mut tail: Vec<String> = Vec::new();
    let mut i: usize = 0;
    proof {
        assert(all.skip(0) =~= all);
        assert(tail.deep_view().reverse() =~= Seq::empty());
    }
    while i < upwards.len()
        invariant
            i <= upwards@.len(),
            all == upwards.deep_view(),
            resolved_path(path@, all, Seq::empty(), windows) == resolved_path(
                path@,
                all.skip(i as int),
                tail.deep_view().reverse(),
                windows,
            ),
        decreases upwards.len() - i,
    {
        let a = &upwards[i];
        proof {
            assert(all[i as int] == a.deep_view());
            assert(all.skip(i as int)[0] == all[i as int]);
            assert(all.skip(i as int).skip(1) =~= all.skip(i + 1));
        }
        match &a.resolved {
            Some(found) => {
                let ghost names = tail.deep_view().reverse();
                let mut out = found.clone();
                let mut k: usize = tail.len();
                assert(names.take(0) =~= Seq::empty());
                while k > 0
                    invariant
                        k <= tail@.len(),
                        names == tail.deep_view().reverse(),
                        out@ == all_beneath(found@, names.take(tail@.len() - k), windows),
                    decreases k,
                {
                    k = k - 1;
                    proof {
                        let n = tail@.len() - k;
                        assert(names.take(n).drop_last() =~= names.take(n - 1));
                        assert(names.take(n).last() == tail.deep_view()[k as int]);
                    }
                    out = put_beneath(out, tail[k].as_str(), windows);
                }
                assert(names.take(names.len() as int) =~= names);
                return out;
            },
            None => {},
        }
        match &a.name {
            Some(name) => {
                let ghost before = tail.deep_view();
                tail.push(name.clone());
                proof {
                    assert(tail.deep_view() =~= before.push(name@));
                    assert(tail.deep_view().reverse() =~= seq![name@] + before.reverse());
                }
            },
            None => {
                return path.to_owned();
            },
        }
        i = i + 1;
    }
    assert(all.skip(i as int).len() == 0);
    path.to_owned()
}

/// The key of a path, with what the disk says of it.
pub open spec fn resolved_key(
    path: Seq<char>,
    upwards: Seq<AncestorView>,
    windows: bool,
) -> Seq<char> {
    path_key(resolved_path(path, upwards, Seq::empty(), windows), windows)
}

/// The key under which a path is compared, with what the disk says of it.
pub fn resolved_path_key(path: &str, upwards: &[Ancestor], windows: bool) -> (r: String)
    ensures
        r@ == resolved_key(path@, upwards.deep_view(), windows),
{
    let resolved = canonicalize_existing_ancestor(path, upwards, windows);
    comparable_path_key(resolved.as_str(), windows)
}

/// Whether a file of the cache is of no use to a round any more: no file of the
/// round has its key.
pub fn is_unused(key: &str, active: &[String]) -> (r: bool)
    ensures
        r == !active.deep_view().contains(key@),
{
    !text::is_among(key, active)
}

/// Whether what lies at a path is a file with something in it.
pub fn is_usable_cached_file(found: Option<(bool, u64)>) -> (r: bool)
    ensures
        r == match found {
            Some((is_file, size)) => is_file && size > 0,
            None => false,
        },
{
    match found {
        Some((is_file, size)) => is_file && size > 0,
        None => false,
    }
}

/// Spellings of a path that differ only in their slashes have the same key; on
/// Windows, also those that differ in the case of letters.
pub proof fn law_same_file_same_key(a: Seq<char>, b: Seq<char>, windows: bool)
    requires
        if windows {
            all_small(plain(backslashed(a))) == all_small(plain(backslashed(b)))
        } else {
            backslashed(a) == backslashed(b)
        },
    ensures
        path_key(a, windows) == path_key(b, windows),
{
}

/// The names below the folder that many steps up, downwards.
pub open spec fn names_below(upwards: Seq<AncestorView>, steps: nat) -> Seq<Seq<char>> {
    Seq::new(steps, |i: int| upwards[steps - 1 - i].name->0)
}

proof fn lemma_resolved_at(
    path: Seq<char>,
    upwards: Seq<AncestorView>,
    steps: nat,
    below: Seq<Seq<char>>,
    windows: bool,
)
    requires
        steps < upwards.len(),
        forall|i: int|
            0 <= i < steps ==> (#[trigger] upwards[i]).resolved is None && upwards[i].name is Some,
        upwards[steps as int].resolved is Some,
    ensures
        resolved_path(path, upwards, below, windows) == all_beneath(
            upwards[steps as int].resolved->0,
            names_below(upwards, steps) + below,
            windows,
        ),
    decreases steps,
{
    if steps == 0 {
        assert(names_below(upwards, steps) + below =~= below);
    } else {
        let rest = upwards.skip(1);
        let name = upwards[0].name->0;
        assert forall|i: int| 0 <= i < steps - 1 implies (#[trigger] rest[i]).resolved is None
            && rest[i].name is Some by {
            assert(rest[i] == upwards[i + 1]);
        }
        assert(rest[steps - 1] == upwards[steps as int]);
        lemma_resolved_at(path, rest, (steps - 1) as nat, seq![name] + below, windows);
        assert(names_below(rest, (steps - 1) as nat) + (seq![name] + below) =~= names_below(
            upwards,
            steps,
        ) + below);
    }
}

/// The key of a path does not change when the file comes to be, however the path
/// is spelled: before, some folder above it existed; after, the file does, and it
/// resolves to that folder with the names that lead down from it.
pub proof fn law_key_is_stable_when_the_file_comes(
    path: Seq<char>,
    before: Seq<AncestorView>,
    steps: nat,
    after: Seq<AncestorView>,
    windows: bool,
)
    requires
        0 < steps < before.len(),
        forall|i: int|
            0 <= i < steps ==> (#[trigger] before[i]).resolved is None && before[i].name is Some,
        before[steps as int].resolved is Some,
        after.len() > 0,
        after[0].resolved == Some(
            all_beneath(before[steps as int].resolved->0, names_below(before, steps), windows),
        ),
    ensures
        resolved_key(path, after, windows) == resolved_key(path, before, windows),
{
    lemma_resolved_at(path, before, steps, Seq::empty(), windows);
    assert(names_below(before, steps) + Seq::<Seq<char>>::empty() =~= names_below(before, steps));
}

/// Whether the prefix that asks Windows to take a path literally stands there
/// twice, or once in disguise behind that of a network path.
pub open spec fn is_twice_literal(path: Seq<char>) -> bool {
    match text::after_prefix(path, "\\\\?\\UNC\\"@) {
        Some(rest) => text::starts_with(rest, "?\\"@),
        None => match text::after_prefix(path, "\\\\?\\"@) {
            Some(rest) => text::starts_with(rest, "\\\\?\\"@),
            None => false,
        },
    }
}

proof fn lemma_untrailed(s: Seq<char>)
    ensures
        untrailed(s).len() <= s.len(),
        untrailed(s) == s.take(untrailed(s).len() as int),
    decreases s.len(),
{
    if s.len() > 0 && s.last() == '\\' && encode_utf8(s).len() > 3 {
        lemma_untrailed(s.drop_last());
        let n = untrailed(s).len() as int;
        assert(s.drop_last().take(n) =~= s.take(n));
    } else {
        assert(s.take(s.len() as int) =~= s);
    }
}

/// A key has no slash and, on Windows, no capital from `A` to `Z`. It does not ask
/// Windows to take it literally, unless the path did so twice.
pub proof fn law_keys_are_plain(path: Seq<char>, windows: bool)
    ensures
        forall|i: int| 0 <= i < path_key(path, windows).len() ==> path_key(path, windows)[i] != '/',
        windows ==> forall|i: int|
            0 <= i < path_key(path, windows).len() ==> !('A' <= #[trigger] path_key(path, windows)[i]
                && path_key(path, windows)[i] <= 'Z'),
        !is_twice_literal(backslashed(path)) ==> !text::starts_with(
            path_key(path, windows),
            "\\\\?\\"@,
        ),
{
    reveal_strlit("\\\\");
    reveal_strlit("\\\\?\\");
    reveal_strlit("\\\\?\\UNC\\");
    reveal_strlit("?\\");
    let b = backslashed(path);
    let p = plain(b);
    let k = if windows {
        all_small(p)
    } else {
        p
    };
    let key = path_key(path, windows);
    lemma_untrailed(k);
    assert forall|i: int| 0 <= i < p.len() implies p[i] != '/' by {
    }
    assert forall|i: int| 0 <= i < key.len() implies key[i] != '/' by {
        assert(key[i] == k[i]);
        assert(p[i] != '/');
    }
    assert forall|i: int| windows && 0 <= i < key.len() implies !('A' <= #[trigger] key[i] && key[i]
        <= 'Z') by {
        assert(key[i] == k[i]);
    }
    let literal = "\\\\?\\"@;
    if text::starts_with(key, literal) && !is_twice_literal(b) {
        assert forall|i: int| 0 <= i < 4 implies #[trigger] p[i] == literal[i] by {
            assert(key[i] == k[i]);
            assert(key.take(4)[i] == literal[i]);
        }
        assert(p.take(4) =~= literal);
        match text::after_prefix(b, "\\\\?\\UNC\\"@) {
            Some(rest) => {
                assert(p[2] == rest[0] && p[3] == rest[1]);
                assert(rest.take(2) =~= "?\\"@);
            },
            None => {},
        }
    }
}

} // verus!
