//! The order of a round: each episode's absolute path is hashed, and the round
//! plays in ascending order of the hashes, ties by episode id.

use sha2::{Digest, Sha256};
use vstd::prelude::*;
use vstd::utf8::*;

use crate::sorting;
use crate::sorting::Sortable;
use crate::text;

verus! {

/// A backslash on every platform: the hash is taken over Windows paths.
pub const PATH_SEPARATOR: char = '\\';

pub open spec fn is_separator(c: char) -> bool {
    c == '\\' || c == '/'
}

/// `s` without the separators at its end.
pub open spec fn without_trailing_separators(s: Seq<char>) -> Seq<char>
    decreases s.len(),
{
    if s.len() > 0 && is_separator(s.last()) {
        without_trailing_separators(s.drop_last())
    } else {
        s
    }
}

/// `s` without the separators at its start.
pub open spec fn without_leading_separators(s: Seq<char>) -> Seq<char>
    decreases s.len(),
{
    if s.len() > 0 && is_separator(s[0]) {
        without_leading_separators(s.drop_first())
    } else {
        s
    }
}

pub open spec fn joined(root_path: Seq<char>, relative_path: Seq<char>) -> Seq<char> {
    without_trailing_separators(root_path) + seq!['\\'] + without_leading_separators(relative_path)
}

/// Joins a show's root path with an episode's relative path: stray separators
/// between the two are dropped, then one backslash joins them.
pub fn join_path(root_path: &str, relative_path: &str) -> (r: String)
    ensures
        r@ == joined(root_path@, relative_path@),
{
    let root = text::chars_of(root_path);
    let mut end: usize = root.len();
    assert(root@.take(end as int) =~= root@);
    while end > 0 && (root[end - 1] == '\\' || root[end - 1] == '/')
        invariant
            end <= root@.len(),
            without_trailing_separators(root@) == without_trailing_separators(
                root@.take(end as int),
            ),
        decreases end,
    {
        assert(root@.take(end as int).drop_last() =~= root@.take(end - 1));
        end = end - 1;
    }
    let rel = text::chars_of(relative_path);
    let mut start: usize = 0;
    assert(rel@.skip(0) =~= rel@);
    while start < rel.len() && (rel[start] == '\\' || rel[start] == '/')
        invariant
            start <= rel@.len(),
            without_leading_separators(rel@) == without_leading_separators(rel@.skip(start as int)),
        decreases rel.len() - start,
    {
        assert(rel@.skip(start as int).drop_first() =~= rel@.skip(start + 1));
        start = start + 1;
    }
    let mut out = text::text_between(&root, 0, end);
    out.push(PATH_SEPARATOR);
    let tail = text::text_between(&rel, start, rel.len());
    out.append(tail.as_str());
    proof {
        assert(root@.subrange(0, end as int) =~= root@.take(end as int));
        assert(rel@.subrange(start as int, rel@.len() as int) =~= rel@.skip(start as int));
    }
    out
}

/// The SHA-256 digest of `data`.
pub uninterp spec fn sha256(data: Seq<u8>) -> Seq<u8>;

/// `sha2::Sha256::digest`: the digest is a function of the bytes alone, and
/// thirty-two bytes long.
#[verifier::external_body]
pub(crate) fn sha256_digest(data: &[u8]) -> (r: Vec<u8>)
    ensures
        r@ == sha256(data@),
        r@.len() == 32,
{
    Sha256::digest(data).to_vec()
}

/// The number that the first four hexadecimal digits of a digest spell.
pub open spec fn leading_digits(digest: Seq<u8>) -> u32 {
    (digest[0] * 256 + digest[1]) as u32
}

pub open spec fn order_value_of(absolute_path: Seq<char>) -> u32 {
    leading_digits(sha256(encode_utf8(absolute_path)))
}

/// The first two bytes of a digest, read as one big-endian number.
pub fn digest_key(digest: &[u8]) -> (r: u32)
    requires
        digest@.len() >= 2,
    ensures
        r == leading_digits(digest@),
        r < 65536,
{
    digest[0] as u32 * 256 + digest[1] as u32
}

/// The sort key of an absolute path.
pub fn order_value(absolute_path: &str) -> (r: u32)
    ensures
        r == order_value_of(absolute_path@),
        r < 65536,
{
    let digest = sha256_digest(absolute_path.as_bytes());
    digest_key(digest.as_slice())
}

/// An episode that a round may hold.
#[derive(Debug, Clone)]
pub struct Candidate {
    pub episode_id: String,
    pub show_id: String,
    pub root_path: String,
    pub relative_path: String,
}

#[verifier::ext_equal]
pub struct CandidateView {
    pub episode_id: Seq<char>,
    pub show_id: Seq<char>,
    pub root_path: Seq<char>,
    pub relative_path: Seq<char>,
}

impl DeepView for Candidate {
    type V = CandidateView;

    open spec fn deep_view(&self) -> CandidateView {
        CandidateView {
            episode_id: self.episode_id@,
            show_id: self.show_id@,
            root_path: self.root_path@,
            relative_path: self.relative_path@,
        }
    }
}

/// An entry of a round, with the key that gave it its place.
#[derive(Debug, Clone, PartialEq, Eq)]
pub struct Ordered {
    pub episode_id: String,
    pub show_id: String,
    pub absolute_path: String,
    pub order_value: u32,
}

#[verifier::ext_equal]
pub struct OrderedView {
    pub episode_id: Seq<char>,
    pub show_id: Seq<char>,
    pub absolute_path: Seq<char>,
    pub order_value: u32,
}

impl DeepView for Ordered {
    type V = OrderedView;

    open spec fn deep_view(&self) -> OrderedView {
        OrderedView {
            episode_id: self.episode_id@,
            show_id: self.show_id@,
            absolute_path: self.absolute_path@,
            order_value: self.order_value,
        }
    }
}

impl Sortable for Ordered {
    /// By key, then by episode id.
    open spec fn leq(a: OrderedView, b: OrderedView) -> bool {
        a.order_value < b.order_value || (a.order_value == b.order_value && !text::text_before(
            b.episode_id,
            a.episode_id,
        ))
    }

    proof fn lemma_total(a: OrderedView, b: OrderedView) {
        text::lemma_text_order(a.episode_id, b.episode_id);
    }

    proof fn lemma_transitive(a: OrderedView, b: OrderedView, c: OrderedView) {
        text::lemma_text_order(a.episode_id, b.episode_id);
        text::lemma_text_order(b.episode_id, c.episode_id);
        if text::text_before(a.episode_id, b.episode_id) && text::text_before(
            b.episode_id,
            c.episode_id,
        ) {
            text::lemma_text_before_transitive(a.episode_id, b.episode_id, c.episode_id);
        }
        text::lemma_text_order(a.episode_id, c.episode_id);
    }

    fn at_most(&self, other: &Self) -> (r: bool) {
        if self.order_value < other.order_value {
            true
        } else if self.order_value == other.order_value {
            match text::rank_text(other.episode_id.as_str(), self.episode_id.as_str()) {
                text::Rank::Below => false,
                _ => true,
            }
        } else {
            false
        }
    }
}

/// A candidate with its absolute path and its key worked out.
pub open spec fn resolved(c: CandidateView) -> OrderedView {
    OrderedView {
        episode_id: c.episode_id,
        show_id: c.show_id,
        absolute_path: joined(c.root_path, c.relative_path),
        order_value: order_value_of(joined(c.root_path, c.relative_path)),
    }
}

pub open spec fn all_resolved(candidates: Seq<CandidateView>) -> Seq<OrderedView> {
    candidates.map_values(|c: CandidateView| resolved(c))
}

/// The round that the candidates make.
pub open spec fn round_of(candidates: Seq<CandidateView>) -> Seq<OrderedView> {
    sorting::in_order::<Ordered>(all_resolved(candidates))
}

/// Works out each candidate's absolute path and key, then sorts ascending by
/// key and, where keys are equal, by episode id.
pub fn sort_round(candidates: &[Candidate]) -> (r: Vec<Ordered>)
    ensures
        r.deep_view() == round_of(candidates.deep_view()),
        sorting::is_ordered::<Ordered>(r.deep_view()),
        r.deep_view().to_multiset() == all_resolved(candidates.deep_view()).to_multiset(),
{
    let mut out: Vec<Ordered> = Vec::new();
    let mut i: usize = 0;
    let ghost views = candidates.deep_view();
    while i < candidates.len()
        invariant
            i <= candidates@.len(),
            views == candidates.deep_view(),
            out.deep_view() == all_resolved(views).take(i as int),
        decreases candidates.len() - i,
    {
        let c = &candidates[i];
        let absolute_path = join_path(c.root_path.as_str(), c.relative_path.as_str());
        let value: u32 = order_value(absolute_path.as_str());
        let ghost before = out.deep_view();
        out.push(
            Ordered {
                episode_id: c.episode_id.clone(),
                show_id: c.show_id.clone(),
                absolute_path,
                order_value: value,
            },
        );
        proof {
            assert(views[i as int] == c.deep_view());
            assert(out.deep_view() =~= before.push(resolved(views[i as int])));
            assert(all_resolved(views).take(i + 1) =~= all_resolved(views).take(i as int).push(
                resolved(views[i as int]),
            ));
        }
        i = i + 1;
    }
    proof {
        assert(all_resolved(views).take(i as int) =~= all_resolved(views));
        sorting::lemma_in_order::<Ordered>(all_resolved(views));
    }
    sorting::stable_sort(out)
}

/// The order of a round is fixed by the set of its candidates: however they are
/// listed, the same candidates, no two with the same episode id, make the same
/// round.
pub proof fn law_round_order_is_deterministic(a: Seq<CandidateView>, b: Seq<CandidateView>)
    requires
        a.to_multiset() == b.to_multiset(),
        forall|i: int, j: int|
            #![trigger a[i], a[j]]
            0 <= i < j < a.len() ==> a[i].episode_id != a[j].episode_id,
    ensures
        round_of(a) == round_of(b),
{
    broadcast use vstd::seq_lib::group_to_multiset_ensures;

    lemma_resolved_multiset(a, b);
    let x = round_of(a);
    let y = round_of(b);
    sorting::lemma_in_order::<Ordered>(all_resolved(a));
    sorting::lemma_in_order::<Ordered>(all_resolved(b));
    assert forall|i: int, j: int|
        #![trigger x[i], x[j]]
        0 <= i < x.len() && 0 <= j < x.len() && Ordered::leq(x[i], x[j]) && Ordered::leq(
            x[j],
            x[i],
        ) implies x[i] == x[j] by {
        text::lemma_text_order(x[i].episode_id, x[j].episode_id);
        assert(x.contains(x[i]) && x.contains(x[j]));
        let ra = all_resolved(a);
        let p = choose|p: int| 0 <= p < ra.len() && ra[p] == x[i];
        let q = choose|q: int| 0 <= q < ra.len() && ra[q] == x[j];
        assert(ra[p].episode_id == a[p].episode_id && ra[q].episode_id == a[q].episode_id);
        if p < q {
            assert(a[p].episode_id != a[q].episode_id);
        } else if q < p {
            assert(a[q].episode_id != a[p].episode_id);
        }
    }
    sorting::lemma_ordered_unique::<Ordered>(x, y);
}

proof fn lemma_resolved_multiset(a: Seq<CandidateView>, b: Seq<CandidateView>)
    requires
        a.to_multiset() == b.to_multiset(),
    ensures
        all_resolved(a).to_multiset() == all_resolved(b).to_multiset(),
    decreases a.len(),
{
    broadcast use vstd::seq_lib::group_to_multiset_ensures;

    assert(a.len() == a.to_multiset().len());
    assert(b.len() == b.to_multiset().len());
    if a.len() == 0 {
        assert(all_resolved(a) =~= all_resolved(b));
    } else {
        assert(a.to_multiset().contains(a[0]) <==> a.contains(a[0]));
        assert(b.to_multiset().contains(a[0]) <==> b.contains(a[0]));
        let k = choose|k: int| 0 <= k < b.len() && b[k] == a[0];
        lemma_resolved_multiset(a.remove(0), b.remove(k));
        assert(all_resolved(a.remove(0)) =~= all_resolved(a).remove(0));
        assert(all_resolved(b.remove(k)) =~= all_resolved(b).remove(k));
        let m = all_resolved(a).to_multiset();
        let n = all_resolved(b).to_multiset();
        let x = resolved(a[0]);
        assert(all_resolved(a)[0] == x && all_resolved(b)[k] == x);
        assert(m.remove(x) == n.remove(x));
        assert(all_resolved(a).contains(x) && all_resolved(b).contains(x));
        assert(m.contains(x) && n.contains(x));
        assert(m =~= m.remove(x).insert(x));
        assert(n =~= n.remove(x).insert(x));
    }
}

} // verus!
