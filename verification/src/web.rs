//! The percent-encoding of addresses.

use vstd::prelude::*;
use vstd::utf8::*;

use crate::text;

verus! {

/// The characters that an address may hold as they are.
pub open spec fn is_unreserved(b: u8) -> bool {
    ||| 0x30 <= b <= 0x39
    ||| 0x41 <= b <= 0x5a
    ||| 0x61 <= b <= 0x7a
    ||| b == 0x2d
    ||| b == 0x2e
    ||| b == 0x5f
    ||| b == 0x7e
}

/// The upper-case hexadecimal digit.
pub open spec fn hex_char(d: int) -> char {
    if d < 10 {
        (0x30 + d) as char
    } else {
        (0x41 + d - 10) as char
    }
}

/// The bytes with all but the unreserved ones as `%` and two hexadecimal digits.
pub open spec fn percent_encoded(bytes: Seq<u8>) -> Seq<char>
    decreases bytes.len(),
{
    if bytes.len() == 0 {
        Seq::empty()
    } else {
        let before = percent_encoded(bytes.drop_last());
        let b = bytes.last();
        if is_unreserved(b) {
            before.push(b as char)
        } else {
            before + seq!['%', hex_char(b as int / 16), hex_char(b as int % 16)]
        }
    }
}

/// What a hexadecimal digit counts.
pub open spec fn hex_value(b: u8) -> Option<u8> {
    if 0x30 <= b <= 0x39 {
        Some((b - 0x30) as u8)
    } else if 0x41 <= b <= 0x46 {
        Some((b - 0x41 + 10) as u8)
    } else if 0x61 <= b <= 0x66 {
        Some((b - 0x61 + 10) as u8)
    } else {
        None
    }
}

/// The bytes with every `%` and two hexadecimal digits as the byte they spell,
/// and everything else as it is.
pub open spec fn percent_decoded(bytes: Seq<u8>) -> Seq<u8>
    decreases bytes.len(),
{
    if bytes.len() == 0 {
        Seq::empty()
    } else if bytes[0] == 0x25 && bytes.len() >= 3 && hex_value(bytes[1]) is Some && hex_value(
        bytes[2],
    ) is Some {
        seq![(hex_value(bytes[1])->0 * 16 + hex_value(bytes[2])->0) as u8] + percent_decoded(
            bytes.skip(3),
        )
    } else {
        seq![bytes[0]] + percent_decoded(bytes.skip(1))
    }
}

/// `urlencoding::encode`: every byte of the text but letters, digits and `-`,
/// `_`, `.`, `~` is percent-encoded.
#[verifier::external_body]
pub(crate) fn encode(s: &str) -> (r: String)
    ensures
        r@ == percent_encoded(encode_utf8(s@)),
{
    urlencoding::encode(s).into_owned()
}

/// `urlencoding::decode`: percent-encoded bytes are decoded and everything else
/// is kept; nothing where what comes out is not UTF-8.
#[verifier::external_body]
pub(crate) fn decode(s: &str) -> (r: Option<String>)
    ensures
        ({
            let bytes = percent_decoded(encode_utf8(s@));
            if valid_utf8(bytes) {
                r matches Some(t) && t@ == decode_utf8(bytes)
            } else {
                r is None
            }
        }),
{
    urlencoding::decode(s).ok().map(|t| t.into_owned())
}

/// The text of bytes that may not be UTF-8.
pub uninterp spec fn lossy_text(bytes: Seq<u8>) -> Seq<char>;

/// `String::from_utf8_lossy`: the text that the bytes spell where they are
/// UTF-8, and otherwise a text that depends on the bytes alone.
#[verifier::external_body]
pub(crate) fn text_of_bytes(bytes: &Vec<u8>) -> (r: String)
    ensures
        r@ == lossy_text(bytes@),
        valid_utf8(bytes@) ==> r@ == decode_utf8(bytes@),
{
    String::from_utf8_lossy(bytes).into_owned()
}

/// The percent-encoding of one byte.
spec fn encoded_byte(b: u8) -> Seq<char> {
    if is_unreserved(b) {
        seq![b as char]
    } else {
        seq!['%', hex_char(b as int / 16), hex_char(b as int % 16)]
    }
}

proof fn lemma_encoded_front(bytes: Seq<u8>)
    requires
        bytes.len() > 0,
    ensures
        percent_encoded(bytes) == encoded_byte(bytes[0]) + percent_encoded(bytes.drop_first()),
    decreases bytes.len(),
{
    let b = bytes.last();
    if bytes.len() == 1 {
        assert(bytes.drop_last() =~= Seq::empty());
        assert(bytes.drop_first() =~= Seq::empty());
        assert(percent_encoded(bytes) =~= encoded_byte(bytes[0]) + percent_encoded(
            bytes.drop_first(),
        ));
    } else {
        let front = bytes.drop_last();
        lemma_encoded_front(front);
        assert(front.drop_first() =~= bytes.drop_first().drop_last());
        assert(bytes.drop_first().last() == b);
        assert(percent_encoded(bytes) =~= encoded_byte(bytes[0]) + percent_encoded(
            bytes.drop_first(),
        ));
    }
}

proof fn lemma_encoded_is_ascii(bytes: Seq<u8>)
    ensures
        is_ascii_chars(percent_encoded(bytes)),
    decreases bytes.len(),
{
    if bytes.len() > 0 {
        lemma_encoded_is_ascii(bytes.drop_last());
        let e = percent_encoded(bytes);
        let f = percent_encoded(bytes.drop_last());
        assert forall|i: int| 0 <= i < e.len() implies 0 <= #[trigger] e[i] as nat <= 0x7f by {
            if i < f.len() {
                assert(e[i] == f[i]);
            }
        }
    }
}

/// Decoding gives back what was encoded.
pub proof fn law_decoding_undoes_encoding(bytes: Seq<u8>)
    ensures
        percent_decoded(encode_utf8(percent_encoded(bytes))) == bytes,
    decreases bytes.len(),
{
    let e = percent_encoded(bytes);
    lemma_encoded_is_ascii(bytes);
    is_ascii_chars_encode_utf8(e);
    let u = encode_utf8(e);
    if bytes.len() == 0 {
        assert(u =~= Seq::empty());
        assert(percent_decoded(u) =~= bytes);
    } else {
        let rest = bytes.drop_first();
        let er = percent_encoded(rest);
        lemma_encoded_front(bytes);
        law_decoding_undoes_encoding(rest);
        lemma_encoded_is_ascii(rest);
        is_ascii_chars_encode_utf8(er);
        let b = bytes[0];
        assert(u.len() == e.len());
        if is_unreserved(b) {
            assert(u[0] == b) by {
                assert(e[0] == b as char);
            }
            assert(u.skip(1) =~= encode_utf8(er));
            assert(percent_decoded(u) == seq![b] + rest);
        } else {
            assert(e[0] == '%' && e[1] == hex_char(b as int / 16) && e[2] == hex_char(
                b as int % 16,
            ));
            assert(u[0] == 0x25);
            assert(hex_value(u[1]) == Some((b as int / 16) as u8));
            assert(hex_value(u[2]) == Some((b as int % 16) as u8));
            assert(u.skip(3) =~= encode_utf8(er));
            assert(percent_decoded(u) == seq![b] + rest);
        }
        assert(seq![b] + rest =~= bytes);
    }
}

/// Bytes are encoded one by one: letters, digits and the four marks that a URL leaves
/// alone stand for themselves, and any other byte is a percent sign and its two
/// upper-case digits.
pub proof fn law_bytes_are_encoded_one_by_one(x: Seq<u8>, y: Seq<u8>, b: u8)
    ensures
        percent_encoded(Seq::empty()).len() == 0,
        percent_encoded(x + y) == percent_encoded(x) + percent_encoded(y),
        ({
            let c = b as char;
            let stays = 'a' <= c <= 'z' || 'A' <= c <= 'Z' || '0' <= c <= '9' || c == '-' || c
                == '.' || c == '_' || c == '~';
            let told = percent_encoded(seq![b]);
            &&& stays ==> told == seq![c]
            &&& !stays ==> told.len() == 3 && told[0] == '%' && is_digit_of(told[1], b as int / 16)
                && is_digit_of(told[2], b as int % 16)
        }),
    decreases y.len(),
{
    let one = seq![b];
    assert(one.drop_last() =~= Seq::empty());
    assert(percent_encoded(one.drop_last()) =~= Seq::empty());
    if is_unreserved(b) {
        assert(percent_encoded(one) =~= seq![b as char]);
    }
    if y.len() == 0 {
        assert(x + y =~= x);
        assert(percent_encoded(x) + percent_encoded(y) =~= percent_encoded(x));
    } else {
        law_bytes_are_encoded_one_by_one(x, y.drop_last(), b);
        assert((x + y).drop_last() =~= x + y.drop_last());
        assert((x + y).last() == y.last());
        assert(percent_encoded(x + y) =~= percent_encoded(x) + percent_encoded(y));
    }
}

/// Whether a character is the upper-case digit of a number below sixteen.
pub open spec fn is_digit_of(c: char, n: int) -> bool {
    if n < 10 {
        '0' <= c <= '9' && c as int - '0' as int == n
    } else {
        'A' <= c <= 'F' && c as int - 'A' as int + 10 == n
    }
}

// ── form values ─────────────────────────────────────────────────────────

/// The byte that two characters behind a `%` spell. A plus sign may stand for
/// the first digit.
pub open spec fn pair_value(a: u8, b: u8) -> Option<u8> {
    match (hex_value(a), hex_value(b)) {
        (Some(x), Some(y)) => Some((x * 16 + y) as u8),
        (None, Some(y)) => if a == 0x2b {
            Some(y)
        } else {
            None
        },
        _ => None,
    }
}

/// The bytes of a form value: `%` and two digits are the byte they spell, and a
/// plus sign is a blank.
pub open spec fn form_bytes(bytes: Seq<u8>) -> Seq<u8>
    decreases bytes.len(),
{
    if bytes.len() == 0 {
        Seq::empty()
    } else if bytes[0] == 0x25 && bytes.len() >= 3 && pair_value(bytes[1], bytes[2]) is Some {
        seq![pair_value(bytes[1], bytes[2])->0] + form_bytes(bytes.skip(3))
    } else if bytes[0] == 0x2b {
        seq![0x20u8] + form_bytes(bytes.skip(1))
    } else {
        seq![bytes[0]] + form_bytes(bytes.skip(1))
    }
}

/// Decoding a form value gives back what was encoded, and a plus sign is a blank.
pub proof fn law_form_decoding_undoes_encoding(bytes: Seq<u8>, rest: Seq<u8>)
    ensures
        form_bytes(encode_utf8(percent_encoded(bytes))) == bytes,
        form_bytes(seq!['+' as u8] + rest) == seq![' ' as u8] + form_bytes(rest),
    decreases bytes.len(),
{
    let plus = seq!['+' as u8] + rest;
    assert(plus[0] == 0x2b);
    assert(plus.skip(1) =~= rest);
    let e = percent_encoded(bytes);
    lemma_encoded_is_ascii(bytes);
    is_ascii_chars_encode_utf8(e);
    let u = encode_utf8(e);
    if bytes.len() == 0 {
        assert(u =~= Seq::empty());
        assert(form_bytes(u) =~= bytes);
    } else {
        let behind = bytes.drop_first();
        let er = percent_encoded(behind);
        lemma_encoded_front(bytes);
        law_form_decoding_undoes_encoding(behind, rest);
        lemma_encoded_is_ascii(behind);
        is_ascii_chars_encode_utf8(er);
        let b = bytes[0];
        assert(u.len() == e.len());
        if is_unreserved(b) {
            assert(u[0] == b) by {
                assert(e[0] == b as char);
            }
            assert(u.skip(1) =~= encode_utf8(er));
            assert(form_bytes(u) == seq![b] + behind);
        } else {
            assert(e[0] == '%' && e[1] == hex_char(b as int / 16) && e[2] == hex_char(
                b as int % 16,
            ));
            assert(u[0] == 0x25);
            assert(hex_value(u[1]) == Some((b as int / 16) as u8));
            assert(hex_value(u[2]) == Some((b as int % 16) as u8));
            assert(u.skip(3) =~= encode_utf8(er));
            assert(form_bytes(u) == seq![b] + behind);
        }
        assert(seq![b] + behind =~= bytes);
    }
}

fn digit_value(b: u8) -> (r: Option<u8>)
    ensures
        r == hex_value(b),
        r matches Some(x) ==> x < 16,
{
    if 0x30 <= b && b <= 0x39 {
        Some(b - 0x30)
    } else if 0x41 <= b && b <= 0x46 {
        Some(b - 0x41 + 10)
    } else if 0x61 <= b && b <= 0x66 {
        Some(b - 0x61 + 10)
    } else {
        None
    }
}

fn spelled_byte(a: u8, b: u8) -> (r: Option<u8>)
    ensures
        r == pair_value(a, b),
{
    match (digit_value(a), digit_value(b)) {
        (Some(x), Some(y)) => Some(x * 16 + y),
        (None, Some(y)) => if a == 0x2b {
            Some(y)
        } else {
            None
        },
        _ => None,
    }
}

/// Decodes the bytes of a form value.
pub fn decode_form(bytes: &[u8]) -> (r: Vec<u8>)
    ensures
        r@ == form_bytes(bytes@),
{
    let mut out: Vec<u8> = Vec::new();
    let mut i: usize = 0;
    assert(bytes@.skip(0) =~= bytes@);
    while i < bytes.len()
        invariant
            i <= bytes@.len(),
            form_bytes(bytes@) == out@ + form_bytes(bytes@.skip(i as int)),
        decreases bytes.len() - i,
    {
        let ghost rest = bytes@.skip(i as int);
        let ghost had = out@;
        let mut step: usize = 1;
        let mut b: u8 = bytes[i];
        if b == 0x2b {
            b = 0x20;
        } else if b == 0x25 && bytes.len() - i >= 3 {
            match spelled_byte(bytes[i + 1], bytes[i + 2]) {
                Some(x) => {
                    b = x;
                    step = 3;
                },
                None => {},
            }
        }
        out.push(b);
        proof {
            assert(rest[0] == bytes@[i as int]);
            if rest.len() >= 3 {
                assert(rest[1] == bytes@[i + 1] && rest[2] == bytes@[i + 2]);
            }
            assert(rest.skip(step as int) =~= bytes@.skip(i + step));
            assert(form_bytes(rest) == seq![b] + form_bytes(rest.skip(step as int)));
            assert(had + (seq![b] + form_bytes(bytes@.skip(i + step))) =~= had.push(b)
                + form_bytes(bytes@.skip(i + step)));
        }
        i = i + step;
    }
    assert(out@ + form_bytes(bytes@.skip(i as int)) =~= out@);
    out
}

/// Decodes a form value.
pub fn urlencoding_decode(s: &str) -> (r: String)
    ensures
        r@ == lossy_text(form_bytes(encode_utf8(s@))),
        valid_utf8(form_bytes(encode_utf8(s@))) ==> r@ == decode_utf8(form_bytes(encode_utf8(s@))),
{
    let bytes = decode_form(s.as_bytes());
    text_of_bytes(&bytes)
}

/// The value of the first of the pairs that has the key.
pub open spec fn first_form_value(pairs: Seq<Seq<char>>, key: Seq<char>) -> Option<Seq<char>>
    decreases pairs.len(),
{
    if pairs.len() == 0 {
        None
    } else {
        match first_form_value(pairs.drop_last(), key) {
            Some(v) => Some(v),
            None => match text::cut(pairs.last(), '=') {
                Some((k, v)) => if k == key {
                    Some(v)
                } else {
                    None
                },
                None => None,
            },
        }
    }
}

/// The value of a key in the query of an address, as it is spelled there.
pub open spec fn raw_query_value(url: Seq<char>, key: Seq<char>) -> Option<Seq<char>> {
    let parts = text::split(url, '?');
    if parts.len() < 2 {
        None
    } else {
        first_form_value(text::split(parts[1], '&'), key)
    }
}

/// Finds the value of a key in the query of an address, and decodes it.
pub fn query_param(url: &str, key: &str) -> (r: Option<String>)
    ensures
        r.deep_view() == match raw_query_value(url@, key@) {
            Some(v) => Some(lossy_text(form_bytes(encode_utf8(v)))),
            None => None,
        },
{
    let parts = text::split_text(url, '?');
    if parts.len() < 2 {
        return None;
    }
    assert(parts.deep_view()[1] == parts@[1]@);
    let pairs = text::split_text(parts[1].as_str(), '&');
    let ghost pv = pairs.deep_view();
    let mut i: usize = 0;
    while i < pairs.len()
        invariant
            i <= pairs@.len(),
            pv == pairs.deep_view(),
            pv == text::split(text::split(url@, '?')[1], '&'),
            text::split(url@, '?').len() >= 2,
            first_form_value(pv.take(i as int), key@) is None,
        decreases pairs.len() - i,
    {
        proof {
            assert(pv[i as int] == pairs@[i as int]@);
            assert(pv.take(i + 1).drop_last() =~= pv.take(i as int));
            assert(pv.take(i + 1).last() == pv[i as int]);
        }
        match text::cut_text(pairs[i].as_str(), '=') {
            Some((k, v)) => {
                if text::same_text(k.as_str(), key) {
                    proof {
                        lemma_first_stays(pv, i + 1, key@);
                    }
                    return Some(urlencoding_decode(v.as_str()));
                }
            },
            None => {},
        }
        i = i + 1;
    }
    assert(pv.take(i as int) =~= pv);
    None
}

proof fn lemma_first_stays(pairs: Seq<Seq<char>>, n: int, key: Seq<char>)
    requires
        0 <= n <= pairs.len(),
        first_form_value(pairs.take(n), key) is Some,
    ensures
        first_form_value(pairs, key) == first_form_value(pairs.take(n), key),
    decreases pairs.len() - n,
{
    if n == pairs.len() {
        assert(pairs.take(n) =~= pairs);
    } else {
        assert(pairs.take(n + 1).drop_last() =~= pairs.take(n));
        lemma_first_stays(pairs, n + 1, key);
    }
}

} // verus!
