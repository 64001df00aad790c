//! A stable sort, for every kind of value that the crate puts in order.

use vstd::prelude::*;

verus! {

/// Values with an order. `at_most` decides it on the values, `leq` states it on
/// their views: a total preorder, so that distinct values may stand level.
pub trait Sortable: DeepView + Sized {
    spec fn leq(a: Self::V, b: Self::V) -> bool;

    proof fn lemma_total(a: Self::V, b: Self::V)
        ensures
            Self::leq(a, b) || Self::leq(b, a),
    ;

    proof fn lemma_transitive(a: Self::V, b: Self::V, c: Self::V)
        requires
            Self::leq(a, b),
            Self::leq(b, c),
        ensures
            Self::leq(a, c),
    ;

    fn at_most(&self, other: &Self) -> (r: bool)
        ensures
            r == Self::leq(self.deep_view(), other.deep_view()),
    ;
}

/// `x` put into `s` directly behind the last element that may stand before it.
pub open spec fn placed<T: Sortable>(s: Seq<T::V>, x: T::V) -> Seq<T::V>
    decreases s.len(),
{
    if s.len() == 0 || T::leq(s.last(), x) {
        s.push(x)
    } else {
        placed::<T>(s.drop_last(), x).push(s.last())
    }
}

/// `s` in order; elements that stand level keep the order that they had.
pub open spec fn in_order<T: Sortable>(s: Seq<T::V>) -> Seq<T::V>
    decreases s.len(),
{
    if s.len() == 0 {
        s
    } else {
        placed::<T>(in_order::<T>(s.drop_last()), s.last())
    }
}

pub open spec fn is_ordered<T: Sortable>(s: Seq<T::V>) -> bool {
    forall|i: int, j: int| #![trigger s[i], s[j]] 0 <= i < j < s.len() ==> T::leq(s[i], s[j])
}

proof fn lemma_push_contains<A>(s: Seq<A>, x: A)
    ensures
        forall|y: A| #[trigger] s.push(x).contains(y) <==> s.contains(y) || y == x,
{
    assert forall|y: A| #[trigger] s.push(x).contains(y) <==> s.contains(y) || y == x by {
        if s.contains(y) {
            let k = choose|k: int| 0 <= k < s.len() && s[k] == y;
            assert(s.push(x)[k] == y);
        }
        assert(s.push(x)[s.len() as int] == x);
    }
}

proof fn lemma_placed<T: Sortable>(s: Seq<T::V>, x: T::V)
    requires
        is_ordered::<T>(s),
    ensures
        is_ordered::<T>(placed::<T>(s, x)),
        placed::<T>(s, x).to_multiset() == s.to_multiset().insert(x),
        placed::<T>(s, x).len() == s.len() + 1,
        forall|y: T::V| #[trigger] placed::<T>(s, x).contains(y) <==> s.contains(y) || y == x,
    decreases s.len(),
{
    broadcast use vstd::seq_lib::group_to_multiset_ensures;

    if s.len() == 0 || T::leq(s.last(), x) {
        assert forall|i: int, j: int|
            #![trigger s.push(x)[i], s.push(x)[j]]
            0 <= i < j < s.push(x).len() implies T::leq(s.push(x)[i], s.push(x)[j]) by {
            if j == s.len() && i < s.len() - 1 {
                T::lemma_transitive(s[i], s.last(), x);
            }
        }
        lemma_push_contains(s, x);
    } else {
        let front = s.drop_last();
        let p = placed::<T>(front, x);
        lemma_placed::<T>(front, x);
        T::lemma_total(s.last(), x);
        let r = p.push(s.last());
        assert(front.push(s.last()) =~= s);
        lemma_push_contains(front, s.last());
        lemma_push_contains(p, s.last());
        assert forall|i: int, j: int|
            #![trigger r[i], r[j]]
            0 <= i < j < r.len() implies T::leq(r[i], r[j]) by {
            if j == p.len() {
                assert(p.contains(p[i]));
                if front.contains(p[i]) {
                    let m = choose|m: int| 0 <= m < front.len() && front[m] == p[i];
                    assert(s[m] == p[i]);
                    assert(T::leq(s[m], s[s.len() - 1]));
                }
            }
        }
        assert(r.to_multiset() =~= s.to_multiset().insert(x));
    }
}

/// Sorting orders the elements and loses, adds and changes none of them.
pub proof fn lemma_in_order<T: Sortable>(s: Seq<T::V>)
    ensures
        is_ordered::<T>(in_order::<T>(s)),
        in_order::<T>(s).to_multiset() == s.to_multiset(),
        in_order::<T>(s).len() == s.len(),
        forall|y: T::V| #[trigger] in_order::<T>(s).contains(y) <==> s.contains(y),
    decreases s.len(),
{
    broadcast use vstd::seq_lib::group_to_multiset_ensures;

    if s.len() > 0 {
        let front = s.drop_last();
        lemma_in_order::<T>(front);
        lemma_placed::<T>(in_order::<T>(front), s.last());
        assert(front.push(s.last()) =~= s);
        lemma_push_contains(front, s.last());
    }
}

/// What is in order already stays as it is.
pub proof fn lemma_in_order_idempotent<T: Sortable>(s: Seq<T::V>)
    requires
        is_ordered::<T>(s),
    ensures
        in_order::<T>(s) == s,
    decreases s.len(),
{
    if s.len() > 0 {
        lemma_in_order_idempotent::<T>(s.drop_last());
        if s.len() > 1 {
            assert(T::leq(s[s.len() - 2], s[s.len() - 1]));
        }
        assert(s.drop_last().push(s.last()) =~= s);
    }
}

/// Changing elements without changing how they stand to one another changes
/// nothing about their order.
pub proof fn lemma_in_order_map<T: Sortable>(s: Seq<T::V>, f: spec_fn(T::V) -> T::V)
    requires
        forall|a: T::V, b: T::V| #[trigger] T::leq(f(a), f(b)) == T::leq(a, b),
    ensures
        in_order::<T>(s.map_values(f)) == in_order::<T>(s).map_values(f),
    decreases s.len(),
{
    if s.len() == 0 {
        assert(s.map_values(f) =~= s);
        assert(in_order::<T>(s).map_values(f) =~= s);
    } else {
        let front = s.drop_last();
        lemma_in_order_map::<T>(front, f);
        lemma_placed_map::<T>(in_order::<T>(front), s.last(), f);
        assert(s.map_values(f).drop_last() =~= front.map_values(f));
        assert(s.map_values(f).last() == f(s.last()));
    }
}

proof fn lemma_placed_map<T: Sortable>(s: Seq<T::V>, x: T::V, f: spec_fn(T::V) -> T::V)
    requires
        forall|a: T::V, b: T::V| #[trigger] T::leq(f(a), f(b)) == T::leq(a, b),
    ensures
        placed::<T>(s.map_values(f), f(x)) == placed::<T>(s, x).map_values(f),
    decreases s.len(),
{
    let m = s.map_values(f);
    if s.len() == 0 {
        assert(m.push(f(x)) =~= s.push(x).map_values(f));
    } else {
        assert(m.last() == f(s.last()));
        assert(T::leq(f(s.last()), f(x)) == T::leq(s.last(), x));
        if T::leq(s.last(), x) {
            assert(m.push(f(x)) =~= s.push(x).map_values(f));
        } else {
            lemma_placed_map::<T>(s.drop_last(), x, f);
            assert(m.drop_last() =~= s.drop_last().map_values(f));
            assert(placed::<T>(s.drop_last(), x).map_values(f).push(f(s.last())) =~= placed::<T>(
                s,
                x,
            ).map_values(f));
        }
    }
}

/// What stands behind everything, in order, stays behind it.
pub proof fn lemma_in_order_append<T: Sortable>(s: Seq<T::V>, t: Seq<T::V>)
    requires
        is_ordered::<T>(t),
        forall|i: int, j: int|
            #![trigger s[i], t[j]]
            0 <= i < s.len() && 0 <= j < t.len() ==> T::leq(s[i], t[j]),
    ensures
        in_order::<T>(s + t) == in_order::<T>(s) + t,
    decreases t.len(),
{
    if t.len() == 0 {
        assert(s + t =~= s);
        assert(in_order::<T>(s) + t =~= in_order::<T>(s));
    } else {
        let front = t.drop_last();
        assert forall|i: int, j: int|
            #![trigger front[i], front[j]]
            0 <= i < j < front.len() implies T::leq(front[i], front[j]) by {
            assert(T::leq(t[i], t[j]));
        }
        assert forall|i: int, j: int|
            #![trigger s[i], front[j]]
            0 <= i < s.len() && 0 <= j < front.len() implies T::leq(s[i], front[j]) by {
            assert(T::leq(s[i], t[j]));
        }
        lemma_in_order_append::<T>(s, front);
        let before = in_order::<T>(s) + front;
        assert((s + t).drop_last() =~= s + front);
        assert((s + t).last() == t.last());
        if before.len() > 0 {
            if front.len() > 0 {
                assert(before.last() == front.last());
                assert(T::leq(t[t.len() - 2], t[t.len() - 1]));
            } else {
                lemma_in_order::<T>(s);
                let o = in_order::<T>(s);
                assert(before =~= o);
                assert(o.contains(o.last()));
                let i = choose|i: int| 0 <= i < s.len() && s[i] == o.last();
                assert(T::leq(s[i], t[t.len() - 1]));
            }
        }
        assert(before.push(t.last()) =~= in_order::<T>(s) + t);
    }
}

/// Two elements of which one comes before the other can be put in either first.
proof fn lemma_placed_commutes<T: Sortable>(s: Seq<T::V>, x: T::V, l: T::V)
    requires
        !T::leq(l, x),
    ensures
        placed::<T>(placed::<T>(s, x), l) == placed::<T>(placed::<T>(s, l), x),
    decreases s.len(),
{
    T::lemma_total(x, l);
    assert(s.push(x).push(l).drop_last() =~= s.push(x));
    assert(s.push(l).drop_last() =~= s);
    if s.len() > 0 {
        let front = s.drop_last();
        let q = s.last();
        if T::leq(q, x) {
            T::lemma_transitive(q, x, l);
        } else {
            lemma_placed_commutes::<T>(front, x, l);
            assert(placed::<T>(front, x).push(q).drop_last() =~= placed::<T>(front, x));
            assert(placed::<T>(front, l).push(q).drop_last() =~= placed::<T>(front, l));
        }
    }
}

proof fn lemma_placed_last<T: Sortable>(s: Seq<T::V>, o: Seq<T::V>, x: T::V)
    ensures
        in_order::<T>(s + placed::<T>(o, x)) == in_order::<T>((s + o).push(x)),
    decreases o.len(),
{
    if o.len() == 0 || T::leq(o.last(), x) {
        assert(s + o.push(x) =~= (s + o).push(x));
    } else {
        let front = o.drop_last();
        let l = o.last();
        lemma_placed_last::<T>(s, front, x);
        assert((s + front).push(x).drop_last() =~= s + front);
        assert((s + o).push(x).drop_last() =~= s + o);
        assert((s + o).drop_last() =~= s + front);
        let both = s + placed::<T>(o, x);
        assert(both =~= (s + placed::<T>(front, x)).push(l));
        assert(both.drop_last() =~= s + placed::<T>(front, x));
        assert(in_order::<T>(both) == placed::<T>(in_order::<T>(s + placed::<T>(front, x)), l));
        assert(in_order::<T>(s + o) == placed::<T>(in_order::<T>(s + front), l));
        lemma_placed_commutes::<T>(in_order::<T>(s + front), x, l);
    }
}

/// Sorting two parts first does not change how the whole is sorted.
pub proof fn lemma_in_order_parts<T: Sortable>(s: Seq<T::V>, t: Seq<T::V>)
    ensures
        in_order::<T>(in_order::<T>(s) + in_order::<T>(t)) == in_order::<T>(s + t),
    decreases t.len(),
{
    let o = in_order::<T>(s);
    if t.len() == 0 {
        assert(s + t =~= s);
        assert(o + t =~= o);
        lemma_in_order::<T>(s);
        lemma_in_order_idempotent::<T>(o);
    } else {
        let front = t.drop_last();
        lemma_in_order_parts::<T>(s, front);
        lemma_placed_last::<T>(o, in_order::<T>(front), t.last());
        assert((o + in_order::<T>(front)).push(t.last()).drop_last() =~= o + in_order::<T>(front));
        assert((s + t).drop_last() =~= s + front);
    }
}

/// Two orderings of the same elements agree where no two elements stand level.
pub proof fn lemma_ordered_unique<T: Sortable>(x: Seq<T::V>, y: Seq<T::V>)
    requires
        is_ordered::<T>(x),
        is_ordered::<T>(y),
        x.to_multiset() == y.to_multiset(),
        forall|i: int, j: int|
            #![trigger x[i], x[j]]
            0 <= i < x.len() && 0 <= j < x.len() && T::leq(x[i], x[j]) && T::leq(x[j], x[i])
                ==> x[i] == x[j],
    ensures
        x == y,
    decreases x.len(),
{
    broadcast use vstd::seq_lib::group_to_multiset_ensures;

    assert(x.len() == x.to_multiset().len());
    assert(y.len() == y.to_multiset().len());
    if x.len() == 0 {
        assert(x =~= y);
    } else {
        assert(x.to_multiset().contains(x[0]) <==> x.contains(x[0]));
        assert(y.to_multiset().contains(x[0]) <==> y.contains(x[0]));
        assert(x.to_multiset().contains(y[0]) <==> x.contains(y[0]));
        assert(y.to_multiset().contains(y[0]) <==> y.contains(y[0]));
        let k = choose|k: int| 0 <= k < y.len() && y[k] == x[0];
        let m = choose|m: int| 0 <= m < x.len() && x[m] == y[0];
        T::lemma_total(x[0], x[0]);
        T::lemma_total(y[0], y[0]);
        assert(T::leq(x[0], x[m]));
        assert(T::leq(y[0], y[k]));
        assert(x[0] == y[0]);
        let xr = x.drop_first();
        let yr = y.drop_first();
        assert(xr =~= x.remove(0));
        assert(yr =~= y.remove(0));
        assert(xr.to_multiset() =~= yr.to_multiset());
        assert forall|i: int, j: int|
            #![trigger xr[i], xr[j]]
            0 <= i < xr.len() && 0 <= j < xr.len() && T::leq(xr[i], xr[j]) && T::leq(
                xr[j],
                xr[i],
            ) implies xr[i] == xr[j] by {
            assert(xr[i] == x[i + 1]);
            assert(xr[j] == x[j + 1]);
        }
        lemma_ordered_unique::<T>(xr, yr);
        assert(x =~= seq![x[0]] + xr);
        assert(y =~= seq![y[0]] + yr);
    }
}

/// Puts `x` into an ordered vector, behind everything that may stand before it.
fn place<T: Sortable>(v: &mut Vec<T>, x: T)
    ensures
        final(v).deep_view() == placed::<T>(old(v).deep_view(), x.deep_view()),
{
    let mut at: usize = v.len();
    let ghost s = v.deep_view();
    let ghost y = x.deep_view();
    let ghost whole = placed::<T>(s, y);
    proof {
        assert(s.take(s.len() as int) =~= s);
        assert(s.skip(s.len() as int) =~= Seq::<T::V>::empty());
        assert(whole =~= whole + Seq::<T::V>::empty());
    }
    while at > 0 && !v[at - 1].at_most(&x)
        invariant
            at <= v.len(),
            s == v.deep_view(),
            y == x.deep_view(),
            whole == placed::<T>(s.take(at as int), y) + s.skip(at as int),
        decreases at,
    {
        proof {
            let t = s.take(at as int);
            assert(t.last() == s[at - 1]);
            assert(t.drop_last() =~= s.take(at - 1));
            assert(placed::<T>(t, y) == placed::<T>(t.drop_last(), y).push(t.last()));
            assert(whole =~= placed::<T>(s.take(at - 1), y) + s.skip(at - 1));
        }
        at = at - 1;
    }
    proof {
        let t = s.take(at as int);
        if at > 0 {
            assert(t.last() == s[at - 1]);
        }
        assert(placed::<T>(t, y) == t.push(y));
    }
    v.insert(at, x);
    proof {
        assert(v.deep_view() =~= s.insert(at as int, y));
        assert(s.insert(at as int, y) =~= s.take(at as int).push(y) + s.skip(at as int));
    }
}

/// Sorts, keeping the order of elements that stand level.
pub fn stable_sort<T: Sortable>(v: Vec<T>) -> (r: Vec<T>)
    ensures
        r.deep_view() == in_order::<T>(v.deep_view()),
{
    let mut rest = v;
    let ghost whole = v.deep_view();
    let mut reversed: Vec<T> = Vec::new();
    while rest.len() > 0
        invariant
            whole.len() == rest.len() + reversed.len(),
            forall|i: int| 0 <= i < rest.len() ==> whole[i] == #[trigger] rest[i].deep_view(),
            forall|i: int|
                0 <= i < reversed.len() ==> whole[whole.len() - 1 - i] == #[trigger] reversed[i].deep_view(),
        decreases rest.len(),
    {
        match rest.pop() {
            Some(x) => reversed.push(x),
            None => {},
        }
    }
    let mut out: Vec<T> = Vec::new();
    assert(out.deep_view() =~= in_order::<T>(whole.take(0)));
    while reversed.len() > 0
        invariant
            reversed.len() <= whole.len(),
            forall|i: int|
                0 <= i < reversed.len() ==> whole[whole.len() - 1 - i] == #[trigger] reversed[i].deep_view(),
            out.deep_view() == in_order::<T>(whole.take(whole.len() - reversed.len())),
        decreases reversed.len(),
    {
        let ghost done = whole.len() - reversed.len();
        match reversed.pop() {
            Some(x) => {
                proof {
                    let t = whole.take(done + 1);
                    assert(t.last() == x.deep_view());
                    assert(t.drop_last() =~= whole.take(done));
                }
                place(&mut out, x);
            },
            None => {},
        }
    }
    assert(whole.take(whole.len() as int) =~= whole);
    out
}

proof fn lemma_placed_among_level<T: Sortable>(s: Seq<T::V>, y: T::V, x: T::V)
    ensures
        ({
            let level = |v: T::V| T::leq(x, v) && T::leq(v, x);
            placed::<T>(s, y).filter(level) == if level(y) {
                s.filter(level).push(y)
            } else {
                s.filter(level)
            }
        }),
    decreases s.len(),
{
    reveal(Seq::filter);
    let level = |v: T::V| T::leq(x, v) && T::leq(v, x);
    if s.len() == 0 || T::leq(s.last(), y) {
        assert(s.push(y).drop_last() =~= s);
    } else {
        let front = s.drop_last();
        let some = placed::<T>(front, y);
        lemma_placed_among_level::<T>(front, y, x);
        assert(some.push(s.last()).drop_last() =~= some);
        if level(y) && level(s.last()) {
            T::lemma_transitive(s.last(), x, y);
        }
    }
}

/// Putting values in order keeps the order of those that stand level: of all that are
/// level with a value, each stands as it stood among the others.
pub proof fn law_order_is_stable<T: Sortable>(s: Seq<T::V>, x: T::V)
    ensures
        in_order::<T>(s).filter(|v: T::V| T::leq(x, v) && T::leq(v, x)) == s.filter(
            |v: T::V| T::leq(x, v) && T::leq(v, x),
        ),
        is_ordered::<T>(in_order::<T>(s)),
        in_order::<T>(s).to_multiset() == s.to_multiset(),
    decreases s.len(),
{
    reveal(Seq::filter);
    lemma_in_order::<T>(s);
    if s.len() > 0 {
        law_order_is_stable::<T>(s.drop_last(), x);
        lemma_placed_among_level::<T>(in_order::<T>(s.drop_last()), s.last(), x);
    }
}

} // verus!
