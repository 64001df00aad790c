//! What becomes of texts: how they are cut, trimmed, joined and read, stated on
//! their characters.

use vstd::prelude::*;
use vstd::utf8::*;

use crate::json;
use crate::paths;
use crate::roundlogic;
use crate::scanning;
use crate::text;
use crate::update;

verus! {

// ── cutting ─────────────────────────────────────────────────────────────

/// Whether a text is free of a character.
pub open spec fn is_free_of(s: Seq<char>, c: char) -> bool {
    forall|i: int| 0 <= i < s.len() ==> #[trigger] s[i] != c
}

proof fn lemma_split_free(s: Seq<char>, c: char)
    requires
        is_free_of(s, c),
    ensures
        text::split(s, c) == seq![s],
    decreases s.len(),
{
    if s.len() > 0 {
        let front = s.drop_last();
        assert(is_free_of(front, c)) by {
            assert forall|i: int| 0 <= i < front.len() implies #[trigger] front[i] != c by {
                assert(s[i] != c);
            }
        }
        lemma_split_free(front, c);
        assert(s[s.len() - 1] != c);
        assert(front.push(s.last()) =~= s);
        assert(text::split(s, c) =~= seq![s]);
    } else {
        assert(s =~= Seq::empty());
    }
}

proof fn lemma_split_at(a: Seq<char>, c: char, b: Seq<char>)
    ensures
        text::split(a.push(c) + b, c) == text::split(a, c) + text::split(b, c),
        text::split(b, c).len() >= 1,
    decreases b.len(),
{
    let whole = a.push(c) + b;
    let pa = text::split(a, c);
    if b.len() == 0 {
        assert(whole =~= a.push(c));
        assert(a.push(c).drop_last() =~= a);
        assert(text::split(whole, c) =~= pa + text::split(b, c));
    } else {
        let front = b.drop_last();
        lemma_split_at(a, c, front);
        assert(whole.drop_last() =~= a.push(c) + front);
        assert(whole.last() == b.last());
        assert(text::split(whole, c) =~= pa + text::split(b, c));
    }
}

/// Cutting a text at a separator gives what stands between the separators: a text
/// without one is the only part, and the parts of a text with one are the parts of
/// what stands before it and of what stands behind it.
pub proof fn law_splitting(a: Seq<char>, c: char, b: Seq<char>)
    ensures
        is_free_of(a, c) ==> text::split(a, c) == seq![a],
        text::split(a.push(c) + b, c) == text::split(a, c) + text::split(b, c),
{
    if is_free_of(a, c) {
        lemma_split_free(a, c);
    }
    lemma_split_at(a, c, b);
}

proof fn lemma_first_at(s: Seq<char>, c: char)
    ensures
        text::first_at(s, c) matches Some(i) ==> 0 <= i < s.len() && s[i] == c && is_free_of(
            s.take(i),
            c,
        ),
        text::first_at(s, c) is None ==> is_free_of(s, c),
    decreases s.len(),
{
    if s.len() > 0 {
        let front = s.drop_last();
        lemma_first_at(front, c);
        match text::first_at(front, c) {
            Some(i) => {
                assert(front.take(i) =~= s.take(i));
            },
            None => {
                assert(s.take(s.len() - 1) =~= front);
                if s.last() != c {
                    assert forall|i: int| 0 <= i < s.len() implies #[trigger] s[i] != c by {
                        if i < front.len() {
                            assert(front[i] != c);
                        }
                    }
                }
            },
        }
    }
}

/// Cutting a text in two cuts it at the first of the separators, which neither part
/// keeps; it fails if and only if there is none.
pub proof fn law_cutting_in_two(s: Seq<char>, c: char)
    ensures
        text::cut(s, c) is None <==> is_free_of(s, c),
        text::cut(s, c) matches Some((a, b)) ==> s == a.push(c) + b && is_free_of(a, c),
{
    lemma_first_at(s, c);
    match text::first_at(s, c) {
        Some(i) => {
            assert(s =~= s.take(i).push(c) + s.skip(i + 1));
            assert(s[i] == c);
        },
        None => {},
    }
}

proof fn lemma_words_end(s: Seq<char>)
    ensures
        s.len() > 0 && !text::is_white(s.last()) ==> text::words(s).len() > 0,
    decreases s.len(),
{
    if s.len() > 0 {
        lemma_words_end(s.drop_last());
    }
}

proof fn lemma_words_apart(a: Seq<char>, w: char, b: Seq<char>)
    requires
        text::is_white(w),
    ensures
        text::words(a.push(w) + b) == text::words(a) + text::words(b),
    decreases b.len(),
{
    let whole = a.push(w) + b;
    if b.len() == 0 {
        assert(whole =~= a.push(w));
        assert(a.push(w).drop_last() =~= a);
        assert(text::words(whole) =~= text::words(a) + text::words(b));
    } else {
        let front = b.drop_last();
        lemma_words_apart(a, w, front);
        lemma_words_end(front);
        assert(whole.drop_last() =~= a.push(w) + front);
        assert(whole.last() == b.last());
        if front.len() == 0 {
            assert(whole.drop_last() =~= a.push(w));
            assert(whole.drop_last().last() == w);
        } else {
            assert(whole.drop_last().last() == front.last());
        }
        assert(text::words(whole) =~= text::words(a) + text::words(b));
    }
}

proof fn lemma_one_word(s: Seq<char>)
    requires
        s.len() > 0,
        forall|i: int| 0 <= i < s.len() ==> !text::is_white(#[trigger] s[i]),
    ensures
        text::words(s) == seq![s],
    decreases s.len(),
{
    let front = s.drop_last();
    assert(!text::is_white(s[s.len() - 1]));
    if front.len() == 0 {
        assert(s =~= seq![s.last()]);
        assert(text::words(front).len() == 0);
        assert(text::words(s) =~= seq![s]);
    } else {
        assert forall|i: int| 0 <= i < front.len() implies !text::is_white(#[trigger] front[i]) by {
            assert(!text::is_white(s[i]));
        }
        lemma_one_word(front);
        assert(!text::is_white(front[front.len() - 1]));
        assert(front.push(s.last()) =~= s);
        assert(text::words(s) =~= seq![s]);
    }
}

/// The words of a text are what stands between white space: a text without any is
/// one word, and white space parts the words before it from those behind it.
pub proof fn law_words(a: Seq<char>, w: char, b: Seq<char>)
    requires
        text::is_white(w),
    ensures
        text::words(Seq::empty()).len() == 0,
        a.len() > 0 && (forall|i: int| 0 <= i < a.len() ==> !text::is_white(#[trigger] a[i]))
            ==> text::words(a) == seq![a],
        text::words(a.push(w) + b) == text::words(a) + text::words(b),
{
    lemma_words_apart(a, w, b);
    if a.len() > 0 && (forall|i: int| 0 <= i < a.len() ==> !text::is_white(#[trigger] a[i])) {
        lemma_one_word(a);
    }
}

/// What stands behind a prefix is found where the text begins with the prefix, and
/// only there.
pub proof fn law_text_behind_a_prefix(s: Seq<char>, prefix: Seq<char>, rest: Seq<char>)
    ensures
        text::after_prefix(prefix + rest, prefix) == Some(rest),
        text::after_prefix(s, prefix) matches Some(r) ==> s == prefix + r,
        text::starts_with(s, prefix) <==> exists|r: Seq<char>| s == prefix + r,
{
    assert((prefix + rest).take(prefix.len() as int) =~= prefix);
    assert((prefix + rest).skip(prefix.len() as int) =~= rest);
    if text::starts_with(s, prefix) {
        assert(s =~= prefix + s.skip(prefix.len() as int));
    }
    if exists|r: Seq<char>| s == prefix + r {
        let r = choose|r: Seq<char>| s == prefix + r;
        assert(s.take(prefix.len() as int) =~= prefix);
    }
}

/// Joined texts stand in their order with the separator between each two: one alone
/// is as it stands, and two lists are joined as the lists themselves are.
pub proof fn law_joining(x: Seq<Seq<char>>, y: Seq<Seq<char>>, s: Seq<char>, separator: Seq<char>)
    ensures
        text::joined_with(Seq::empty(), separator).len() == 0,
        text::joined_with(seq![s], separator) == s,
        x.len() > 0 && y.len() > 0 ==> text::joined_with(x + y, separator) == text::joined_with(
            x,
            separator,
        ) + separator + text::joined_with(y, separator),
    decreases y.len(),
{
    if x.len() > 0 && y.len() > 0 {
        let front = y.drop_last();
        assert((x + y).drop_last() =~= x + front);
        assert((x + y).last() == y.last());
        if front.len() == 0 {
            assert(x + front =~= x);
            assert(y[0] == y.last());
        } else {
            law_joining(x, front, s, separator);
            assert(text::joined_with(x, separator) + separator + (text::joined_with(
                front,
                separator,
            ) + separator + y.last()) =~= text::joined_with(x, separator) + separator
                + text::joined_with(front, separator) + separator + y.last());
        }
    }
}

// ── trimming ────────────────────────────────────────────────────────────

/// White space is what Unicode calls so: the tab and the four controls behind it,
/// the space, and the named others.
pub proof fn law_white_space(c: char)
    ensures
        c == ' ' || c == '\t' || c == '\n' || c == '\r' ==> text::is_white(c),
        c == '\u{b}' || c == '\u{c}' || c == '\u{85}' || c == '\u{a0}' ==> text::is_white(c),
        c == '\u{1680}' || c == '\u{2028}' || c == '\u{2029}' ==> text::is_white(c),
        c == '\u{202f}' || c == '\u{205f}' || c == '\u{3000}' ==> text::is_white(c),
        '\u{2000}' <= c <= '\u{200a}' ==> text::is_white(c),
        text::is_white(c) && c < '\u{80}' ==> c == ' ' || '\t' <= c <= '\r',
        '!' <= c <= '~' ==> !text::is_white(c),
        text::is_white(c) && '\u{a0}' < c ==> c == '\u{1680}' || '\u{2000}' <= c <= '\u{200a}' || c
            == '\u{2028}' || c == '\u{2029}' || c == '\u{202f}' || c == '\u{205f}' || c
            == '\u{3000}',
{
}

proof fn lemma_front_trimmed(s: Seq<char>) -> (n: int)
    ensures
        0 <= n <= s.len(),
        text::trimmed_front(s) == s.skip(n),
        forall|i: int| 0 <= i < n ==> text::is_white(#[trigger] s[i]),
        n < s.len() ==> !text::is_white(s[n]),
    decreases s.len(),
{
    if s.len() > 0 && text::is_white(s[0]) {
        let rest = s.drop_first();
        let n = lemma_front_trimmed(rest);
        assert(rest.skip(n) =~= s.skip(n + 1));
        assert forall|i: int| 0 <= i < n + 1 implies text::is_white(#[trigger] s[i]) by {
            if i > 0 {
                assert(text::is_white(rest[i - 1]));
            }
        }
        n + 1
    } else {
        assert(s.skip(0) =~= s);
        0
    }
}

proof fn lemma_back_trimmed(s: Seq<char>) -> (n: int)
    ensures
        0 <= n <= s.len(),
        text::trimmed_back(s) == s.take(n),
        forall|i: int| n <= i < s.len() ==> text::is_white(#[trigger] s[i]),
        n > 0 ==> !text::is_white(s[n - 1]),
    decreases s.len(),
{
    if s.len() > 0 && text::is_white(s.last()) {
        let front = s.drop_last();
        let n = lemma_back_trimmed(front);
        assert(front.take(n) =~= s.take(n));
        assert forall|i: int| n <= i < s.len() implies text::is_white(#[trigger] s[i]) by {
            if i < front.len() {
                assert(text::is_white(front[i]));
            }
        }
        n
    } else {
        assert(s.take(s.len() as int) =~= s);
        s.len() as int
    }
}

/// Trimming takes away white space at both ends and nothing else: what is left is a
/// stretch of the text, with only white space before and behind it, and it neither
/// begins nor ends with white space.
pub proof fn law_trimming(s: Seq<char>) -> (ends: (int, int))
    ensures
        ({
            let (a, b) = ends;
            let t = text::trimmed(s);
            &&& 0 <= a <= b <= s.len()
            &&& t == s.subrange(a, b)
            &&& forall|i: int| 0 <= i < a ==> text::is_white(#[trigger] s[i])
            &&& forall|i: int| b <= i < s.len() ==> text::is_white(#[trigger] s[i])
            &&& t.len() > 0 ==> !text::is_white(t[0]) && !text::is_white(t.last())
        }),
{
    let a = lemma_front_trimmed(s);
    let rest = s.skip(a);
    let n = lemma_back_trimmed(rest);
    let b = a + n;
    assert(rest.take(n) =~= s.subrange(a, b));
    assert forall|i: int| b <= i < s.len() implies text::is_white(#[trigger] s[i]) by {
        assert(text::is_white(rest[i - a]));
    }
    (a, b)
}

// ── numbers ─────────────────────────────────────────────────────────────

/// A number is spelled with decimal digits that read as the number, without a zero
/// in front.
pub proof fn law_decimal_spelling(n: nat)
    ensures
        ({
            let s = text::decimal(n);
            &&& s.len() > 0
            &&& forall|i: int| 0 <= i < s.len() ==> scanning::is_decimal(#[trigger] s[i])
            &&& scanning::number_spelled(s) == n
            &&& n > 0 ==> s[0] != '0'
        }),
    decreases n,
{
    let s = text::decimal(n);
    if n < 10 {
        assert(s.drop_last() =~= Seq::empty());
        assert(scanning::number_spelled(s.drop_last()) == 0);
    } else {
        law_decimal_spelling(n / 10);
        let front = text::decimal(n / 10);
        assert(s.drop_last() =~= front);
        assert forall|i: int| 0 <= i < s.len() implies scanning::is_decimal(#[trigger] s[i]) by {
            if i < front.len() {
                assert(scanning::is_decimal(front[i]));
            }
        }
        assert(s[0] == front[0]);
    }
}

/// Digits are read as the number that they spell, with a sign in front or without;
/// what has anything else in it, or nothing but a sign, is no number, and neither is
/// what does not fit 64 bits.
pub proof fn law_numbers_are_read(digits: Seq<char>, i: int)
    requires
        digits.len() > 0,
        digits[0] != '-' && digits[0] != '+',
    ensures
        ({
            let spelled = forall|k: int|
                0 <= k < digits.len() ==> scanning::is_decimal(#[trigger] digits[k]);
            let n = scanning::number_spelled(digits);
            &&& spelled && n <= i64::MAX ==> text::number_in(digits) == Some(n as int)
            &&& spelled && n <= i64::MAX ==> text::number_in(seq!['+'] + digits) == Some(n as int)
            &&& spelled && n <= -i64::MIN ==> text::number_in(seq!['-'] + digits) == Some(
                -(n as int),
            )
            &&& spelled && n > i64::MAX ==> text::number_in(digits) is None
            &&& 0 <= i < digits.len() && !scanning::is_decimal(digits[i]) ==> text::number_in(
                digits,
            ) is None && text::number_in(seq!['-'] + digits) is None && text::number_in(
                seq!['+'] + digits,
            ) is None
        }),
        text::number_in(Seq::empty()) is None,
        text::number_in(seq!['-']) is None,
        text::number_in(seq!['+']) is None,
{
    scanning::lemma_number_spelled(digits);
    let minus = seq!['-'] + digits;
    let plus = seq!['+'] + digits;
    assert(minus.skip(1) =~= digits);
    assert(plus.skip(1) =~= digits);
    assert(minus[0] == '-' && plus[0] == '+');
    if forall|k: int| 0 <= k < digits.len() ==> scanning::is_decimal(#[trigger] digits[k]) {
        assert(text::all_digits(digits)) by {
            assert forall|k: int| 0 <= k < digits.len() implies text::is_digit(
                #[trigger] digits[k],
            ) by {
                assert(scanning::is_decimal(digits[k]));
            }
        }
    }
    if 0 <= i < digits.len() && !scanning::is_decimal(digits[i]) {
        assert(!text::is_digit(digits[i]));
        assert(!text::all_digits(digits));
    }
    assert(seq!['-'].skip(1).len() == 0);
    assert(seq!['+'].skip(1).len() == 0);
}

// ── paths ───────────────────────────────────────────────────────────────

proof fn lemma_nonempty_apart(x: Seq<Seq<char>>, y: Seq<Seq<char>>)
    ensures
        paths::nonempty(x + y) == paths::nonempty(x) + paths::nonempty(y),
    decreases y.len(),
{
    if y.len() == 0 {
        assert(x + y =~= x);
        assert(paths::nonempty(x) + paths::nonempty(y) =~= paths::nonempty(x));
    } else {
        lemma_nonempty_apart(x, y.drop_last());
        assert((x + y).drop_last() =~= x + y.drop_last());
        assert((x + y).last() == y.last());
        assert(paths::nonempty(x + y) =~= paths::nonempty(x) + paths::nonempty(y));
    }
}

/// The names on a path are what stands between its separators, of either kind; a
/// separator more, at the ends or beside another, makes no name. A file of a show is
/// kept under the show's name, by the names on its path.
pub proof fn law_names_on_a_path(a: Seq<char>, c: char, b: Seq<char>, show: Seq<char>)
    requires
        c == '/' || c == '\\',
    ensures
        paths::names_on(Seq::empty()).len() == 0,
        a.len() > 0 && is_free_of(a, '/') && is_free_of(a, '\\') ==> paths::names_on(a) == seq![a],
        paths::names_on(a.push(c) + b) == paths::names_on(a) + paths::names_on(b),
        paths::local_path(show, a).len() == 1 + paths::names_on(a).len(),
        paths::local_path(show, a)[0] == show,
        paths::local_path(show, a).skip(1) == paths::names_on(a),
{
    let x = paths::backslashed(a);
    let y = paths::backslashed(b);
    assert(paths::backslashed(a.push(c) + b) =~= x.push('\\') + y);
    lemma_split_at(x, '\\', y);
    lemma_nonempty_apart(text::split(x, '\\'), text::split(y, '\\'));
    if a.len() > 0 && is_free_of(a, '/') && is_free_of(a, '\\') {
        assert(x =~= a) by {
            assert forall|i: int| 0 <= i < a.len() implies x[i] == a[i] by {
                assert(a[i] != '/');
            }
        }
        lemma_split_free(a, '\\');
        lemma_only_part(a);
    }
    let none: Seq<char> = Seq::empty();
    assert(paths::backslashed(none) =~= none);
    assert(text::split(none, '\\') =~= seq![none]);
    lemma_no_part();
    assert(paths::local_path(show, a).skip(1) =~= paths::names_on(a));
}

proof fn lemma_only_part(a: Seq<char>)
    requires
        a.len() > 0,
    ensures
        paths::nonempty(seq![a]) == seq![a],
{
    let one = seq![a];
    assert(one.drop_last() =~= Seq::empty());
    assert(paths::nonempty(one.drop_last()) =~= Seq::empty());
    assert(paths::nonempty(one) =~= one);
}

proof fn lemma_no_part()
    ensures
        paths::nonempty(seq![Seq::<char>::empty()]).len() == 0,
{
    let one = seq![Seq::<char>::empty()];
    assert(one.drop_last() =~= Seq::empty());
    assert(paths::nonempty(one.drop_last()) =~= Seq::empty());
}

/// The character of a key that stands for one of a path: a backslash for a slash, and
/// on Windows the small letter for a capital of the first 128 characters.
pub open spec fn is_key_char(k: char, c: char, windows: bool) -> bool {
    if c == '/' {
        k == '\\'
    } else if windows && 'A' <= c <= 'Z' {
        k as int == c as int + 32
    } else {
        k == c
    }
}

proof fn lemma_untrailed_ends(s: Seq<char>)
    ensures
        ({
            let t = paths::untrailed(s);
            &&& t.len() <= s.len()
            &&& t == s.take(t.len() as int)
            &&& forall|i: int| t.len() <= i < s.len() ==> #[trigger] s[i] == '\\'
            &&& t.len() > 0 && t.last() == '\\' ==> encode_utf8(t).len() <= 3
        }),
    decreases s.len(),
{
    if s.len() > 0 && s.last() == '\\' && encode_utf8(s).len() > 3 {
        let front = s.drop_last();
        lemma_untrailed_ends(front);
        let t = paths::untrailed(s);
        assert(front.take(t.len() as int) =~= s.take(t.len() as int));
        assert forall|i: int| t.len() <= i < s.len() implies #[trigger] s[i] == '\\' by {
            if i < front.len() {
                assert(front[i] == '\\');
            }
        }
    } else {
        assert(s.take(s.len() as int) =~= s);
    }
}

/// The key of a path is the path character by character, without the separators at
/// its end, of which one stays only where the key is that of a drive.
pub proof fn law_key_of_a_path(path: Seq<char>, windows: bool, i: int)
    ensures
        ({
            let key = paths::path_key(path, windows);
            let literal = text::starts_with(paths::backslashed(path), "\\\\?\\"@);
            &&& !literal ==> key.len() <= path.len()
            &&& !literal && 0 <= i < key.len() ==> is_key_char(key[i], path[i], windows)
            &&& !literal && key.len() <= i < path.len() ==> path[i] == '/' || path[i] == '\\'
            &&& key.len() > 0 && key.last() == '\\' ==> encode_utf8(key).len() <= 3
        }),
{
    reveal_strlit("\\\\?\\");
    reveal_strlit("\\\\?\\UNC\\");
    let b = paths::backslashed(path);
    let p = paths::plain(b);
    let k = if windows {
        paths::all_small(p)
    } else {
        p
    };
    lemma_untrailed_ends(k);
    if text::starts_with(b, "\\\\?\\UNC\\"@) {
        let long = "\\\\?\\UNC\\"@;
        let short = "\\\\?\\"@;
        assert(b.take(4) =~= short) by {
            assert forall|j: int| 0 <= j < 4 implies b.take(4)[j] == short[j] by {
                assert(b.take(8)[j] == long[j]);
            }
        }
    }
    let key = paths::path_key(path, windows);
    if !text::starts_with(b, "\\\\?\\"@) {
        assert(p == b);
        if 0 <= i < key.len() {
            assert(key[i] == k[i]);
        } else if key.len() <= i < path.len() {
            assert(k[i] == '\\');
        }
    }
}

/// A path that is to be taken literally has the key of what it spells, on a drive and
/// on the network.
pub proof fn law_key_of_a_literal_path(rest: Seq<char>, windows: bool)
    ensures
        !text::starts_with(paths::backslashed(rest), "\\\\?\\"@) && !text::starts_with(
            paths::backslashed(rest),
            "UNC\\"@,
        ) ==> paths::path_key("\\\\?\\"@ + rest, windows) == paths::path_key(rest, windows),
        rest.len() > 0 && rest[0] != '?' ==> paths::path_key("\\\\?\\UNC\\"@ + rest, windows)
            == paths::path_key("\\\\"@ + rest, windows),
{
    reveal_strlit("\\\\");
    reveal_strlit("UNC\\");
    reveal_strlit("\\\\?\\");
    reveal_strlit("\\\\?\\UNC\\");
    let short = "\\\\?\\"@;
    let long = "\\\\?\\UNC\\"@;
    let b = paths::backslashed(rest);
    if !text::starts_with(b, short) && !text::starts_with(b, "UNC\\"@) {
        let whole = paths::backslashed(short + rest);
        assert(whole =~= short + b);
        assert(whole.take(4) =~= short);
        assert(whole.skip(4) =~= b);
        if text::starts_with(whole, long) {
            assert(b.take(4) =~= "UNC\\"@) by {
                assert forall|j: int| 0 <= j < 4 implies b.take(4)[j] == "UNC\\"@[j] by {
                    assert(whole.take(8)[j + 4] == long[j + 4]);
                }
            }
        }
        if text::starts_with(b, long) {
            assert(b.take(4) =~= short) by {
                assert forall|j: int| 0 <= j < 4 implies b.take(4)[j] == short[j] by {
                    assert(b.take(8)[j] == long[j]);
                }
            }
        }
    }
    if rest.len() > 0 && rest[0] != '?' {
        let net = "\\\\"@;
        let whole = paths::backslashed(long + rest);
        let plain = paths::backslashed(net + rest);
        assert(whole =~= long + b);
        assert(whole.take(8) =~= long);
        assert(whole.skip(8) =~= b);
        assert(plain =~= net + b);
        if text::starts_with(plain, short) {
            assert(plain.take(4)[2] == short[2]);
            assert(b[0] == '?');
        }
        if text::starts_with(plain, long) {
            assert(plain.take(8)[2] == long[2]);
            assert(b[0] == '?');
        }
    }
}

// ── playlists ───────────────────────────────────────────────────────────

proof fn lemma_trimmed_parts_apart(x: Seq<Seq<char>>, y: Seq<Seq<char>>)
    ensures
        roundlogic::trimmed_parts(x + y) == roundlogic::trimmed_parts(x)
            + roundlogic::trimmed_parts(y),
    decreases y.len(),
{
    if y.len() == 0 {
        assert(x + y =~= x);
        assert(roundlogic::trimmed_parts(x) + roundlogic::trimmed_parts(y)
            =~= roundlogic::trimmed_parts(x));
    } else {
        lemma_trimmed_parts_apart(x, y.drop_last());
        assert((x + y).drop_last() =~= x + y.drop_last());
        assert((x + y).last() == y.last());
        assert(roundlogic::trimmed_parts(x + y) =~= roundlogic::trimmed_parts(x)
            + roundlogic::trimmed_parts(y));
    }
}

/// The playlists that a setting names stand between its commas, each trimmed, and a
/// blank one is none. Where it names none, the default stands.
pub proof fn law_playlists_of_a_setting(a: Seq<char>, b: Seq<char>, default: Seq<Seq<char>>)
    ensures
        ({
            let none: Seq<Seq<char>> = Seq::empty();
            &&& is_free_of(a, ',') && text::trimmed(a).len() > 0 ==> roundlogic::playlists_of(
                a,
                default,
            ) == seq![text::trimmed(a)]
            &&& is_free_of(a, ',') && text::trimmed(a).len() == 0 ==> roundlogic::playlists_of(
                a,
                default,
            ) == default
            &&& roundlogic::playlists_of(a.push(',') + b, none) == roundlogic::playlists_of(a, none)
                + roundlogic::playlists_of(b, none)
            &&& roundlogic::playlists_of(a, none).len() > 0 ==> roundlogic::playlists_of(
                a,
                default,
            ) == roundlogic::playlists_of(a, none)
            &&& roundlogic::playlists_of(a, none).len() == 0 ==> roundlogic::playlists_of(
                a,
                default,
            ) == default
        }),
{
    let none: Seq<Seq<char>> = Seq::empty();
    let x = text::split(a, ',');
    let y = text::split(b, ',');
    lemma_split_at(a, ',', b);
    lemma_trimmed_parts_apart(x, y);
    assert(roundlogic::playlists_of(a.push(',') + b, none) =~= roundlogic::playlists_of(a, none)
        + roundlogic::playlists_of(b, none));
    if is_free_of(a, ',') {
        lemma_split_free(a, ',');
        let one = seq![a];
        assert(one.drop_last() =~= Seq::empty());
        assert(roundlogic::trimmed_parts(one.drop_last()) =~= Seq::empty());
        if text::trimmed(a).len() > 0 {
            assert(roundlogic::trimmed_parts(one) =~= seq![text::trimmed(a)]);
        }
    }
}

// ── versions ────────────────────────────────────────────────────────────

/// An update is offered if and only if the tag names a version other than the one
/// that runs. A tag names its version behind the word for the desktop, or as it
/// stands; the offer tells the two versions and where to get the newer.
pub proof fn law_update_is_another_version(
    current: Seq<char>,
    version: Seq<char>,
    tag: Seq<char>,
    url: Seq<char>,
)
    ensures
        ({
            let prefix = "desktop-"@;
            let offer = update::update_for(current, prefix + version, url);
            &&& offer is Some <==> version.len() > 0 && version != current
            &&& offer matches Some(u) ==> u.latest == version && u.current == current && u.url
                == url
        }),
        ({
            let plain = !(exists|rest: Seq<char>| tag == "desktop-"@ + rest);
            let offer = update::update_for(current, tag, url);
            &&& plain ==> (offer is Some <==> tag.len() > 0 && tag != current)
            &&& plain && offer is Some ==> offer->0.latest == tag && offer->0.current == current
                && offer->0.url == url
        }),
{
    let prefix = "desktop-"@;
    assert((prefix + version).take(prefix.len() as int) =~= prefix);
    assert((prefix + version).skip(prefix.len() as int) =~= version);
    if text::starts_with(tag, prefix) {
        assert(tag =~= prefix + tag.skip(prefix.len() as int));
    }
}

/// Whether an update is looked for depends on the stamp of the build, trimmed: without
/// one, or with a blank one, or without an answer that can be read and names a release,
/// there is none. Otherwise the version that runs is the stamp.
pub proof fn law_update_needs_a_stamp(stamp: Option<Seq<char>>, body: Option<Seq<char>>)
    ensures
        ({
            let found = update::checked(stamp, body);
            &&& stamp is None || text::trimmed(stamp->0).len() == 0 || body is None ==> found is None
            &&& found matches Some(u) ==> {
                &&& u.current == text::trimmed(stamp->0)
                &&& u.latest != u.current
                &&& json::json_parse(body->0) matches Ok(answer) && json::field(
                    answer,
                    "tag_name"@,
                ) matches Some(json::JsonView::Text(tag)) && (tag == u.latest || tag == "desktop-"@
                    + u.latest)
            }
        }),
{
    match (update::stamped_sha(stamp), body) {
        (Some(current), Some(b)) => match json::json_parse(b) {
            Ok(answer) => match update::release_in(answer) {
                Some((tag, url)) => {
                    law_text_behind_a_prefix(tag, "desktop-"@, Seq::empty());
                },
                None => {},
            },
            Err(_) => {},
        },
        _ => {},
    }
}

} // verus!
