//! Orders on values, and stable sorting by them.

use vstd::prelude::*;
use crate::text::chars_of;

verus! {

/// A type whose values are ranked by a total preorder.
pub trait Ordered: Sized {
    /// `self` ranks no higher than `other`.
    spec fn at_most(self, other: Self) -> bool;

    /// Any two values can be compared.
    proof fn total(a: Self, b: Self)
        ensures
            a.at_most(b) || b.at_most(a),
    ;

    /// The ranking is transitive.
    proof fn transitive(a: Self, b: Self, c: Self)
        requires
            a.at_most(b),
            b.at_most(c),
        ensures
            a.at_most(c),
    ;

    /// Whether `self` ranks no higher than `other`.
    fn ranks_at_most(&self, other: &Self) -> (r: bool)
        ensures
            r == self.at_most(*other),
    ;
}

/// `s`, in ascending order, with `x` put in after everything that ranks no
/// higher.
pub open spec fn inserted<T: Ordered>(s: Seq<T>, x: T) -> Seq<T>
    decreases s.len(),
{
    if s.len() == 0 || s.last().at_most(x) {
        s.push(x)
    } else {
        inserted(s.drop_last(), x).push(s.last())
    }
}

/// `s` in ascending order, items of equal rank in the order in which they came.
pub open spec fn sorted<T: Ordered>(s: Seq<T>) -> Seq<T>
    decreases s.len(),
{
    if s.len() == 0 {
        s
    } else {
        inserted(sorted(s.drop_last()), s.last())
    }
}

/// Every item ranks no higher than the ones after it.
pub open spec fn ascending<T: Ordered>(s: Seq<T>) -> bool {
    forall|i: int, j: int| 0 <= i <= j < s.len() ==> (#[trigger] s[i]).at_most(#[trigger] s[j])
}

/// Two items have the same rank.
pub open spec fn level<T: Ordered>(a: T, b: T) -> bool {
    a.at_most(b) && b.at_most(a)
}

/// The items of `s` that have the rank of `x`, in their order in `s`.
pub open spec fn of_rank<T: Ordered>(s: Seq<T>, x: T) -> Seq<T> {
    s.filter(|e: T| level(e, x))
}

proof fn lemma_inserted<T: Ordered>(s: Seq<T>, x: T)
    requires
        ascending(s),
    ensures
        ascending(inserted(s, x)),
        inserted(s, x).len() == s.len() + 1,
        inserted(s, x).to_multiset() == s.to_multiset().insert(x),
        forall|i: int|
            0 <= i < inserted(s, x).len() ==> (#[trigger] inserted(s, x)[i] == x || s.contains(
                inserted(s, x)[i],
            )),
    decreases s.len(),
{
    broadcast use vstd::seq_lib::group_to_multiset_ensures;

    let r = inserted(s, x);
    if s.len() == 0 || s.last().at_most(x) {
        assert forall|i: int, j: int| 0 <= i <= j < r.len() implies (#[trigger] r[i]).at_most(
            #[trigger] r[j],
        ) by {
            T::total(x, x);
            if j == s.len() && i < j {
                assert(s[i].at_most(s.last()));
                T::transitive(s[i], s.last(), x);
            }
        }
        assert forall|i: int| 0 <= i < r.len() implies (#[trigger] r[i] == x || s.contains(r[i])) by {
            if i < s.len() {
                assert(r[i] == s[i]);
            }
        }
    } else {
        let d = s.drop_last();
        lemma_inserted(d, x);
        let q = inserted(d, x);
        T::total(s.last(), x);
        assert(s =~= d.push(s.last()));
        assert(s.to_multiset() == d.to_multiset().insert(s.last()));
        assert(r.to_multiset() == q.to_multiset().insert(s.last()));
        assert(r.to_multiset() =~= s.to_multiset().insert(x));
        assert forall|i: int, j: int| 0 <= i <= j < r.len() implies (#[trigger] r[i]).at_most(
            #[trigger] r[j],
        ) by {
            T::total(s.last(), s.last());
            if j == q.len() && i < j {
                assert(r[i] == q[i]);
                if q[i] != x {
                    assert(d.contains(q[i]));
                    let k = choose|k: int| 0 <= k < d.len() && d[k] == q[i];
                    assert(s[k].at_most(s.last()));
                }
            }
        }
        assert forall|i: int| 0 <= i < r.len() implies (#[trigger] r[i] == x || s.contains(r[i])) by {
            if i < q.len() {
                assert(r[i] == q[i]);
                if q[i] != x {
                    let k = choose|k: int| 0 <= k < d.len() && d[k] == q[i];
                    assert(s[k] == r[i]);
                }
            } else {
                assert(r[i] == s[s.len() - 1]);
            }
        }
    }
}

proof fn lemma_inserted_rank<T: Ordered>(s: Seq<T>, x: T, y: T)
    requires
        ascending(s),
    ensures
        of_rank(inserted(s, x), y) == of_rank(s.push(x), y),
    decreases s.len(),
{
    let p = |e: T| level(e, y);
    if s.len() == 0 || s.last().at_most(x) {
    } else {
        let d = s.drop_last();
        let l = s.last();
        lemma_inserted_rank(d, x, y);
        assert(inserted(d, x).push(l).drop_last() =~= inserted(d, x));
        assert(d.push(x).drop_last() =~= d);
        assert(s.push(x).drop_last() =~= s);
        reveal_with_fuel(Seq::filter, 2);
        if p(x) && p(l) {
            T::transitive(l, y, x);
            assert(false);
        }
        assert(of_rank(inserted(s, x), y) =~= of_rank(s.push(x), y));
    }
}

/// Sorting puts the items in ascending order, keeps each of them as often as it
/// came, and keeps items of equal rank in the order in which they came.
pub proof fn lemma_sorted<T: Ordered>(s: Seq<T>)
    ensures
        ascending(sorted(s)),
        sorted(s).len() == s.len(),
        sorted(s).to_multiset() == s.to_multiset(),
        forall|y: T| #[trigger] of_rank(sorted(s), y) == of_rank(s, y),
    decreases s.len(),
{
    broadcast use vstd::seq_lib::group_to_multiset_ensures;

    if s.len() > 0 {
        let d = s.drop_last();
        lemma_sorted(d);
        lemma_inserted(sorted(d), s.last());
        assert(s =~= d.push(s.last()));
        assert forall|y: T| #[trigger] of_rank(sorted(s), y) == of_rank(s, y) by {
            lemma_inserted_rank(sorted(d), s.last(), y);
            assert(sorted(d).push(s.last()).drop_last() =~= sorted(d));
            assert(of_rank(sorted(d), y) == of_rank(d, y));
            reveal_with_fuel(Seq::filter, 2);
        }
    }
}

/// An item is in the sorted sequence exactly when it is in the sequence.
pub proof fn lemma_sorted_contains<T: Ordered>(s: Seq<T>, x: T)
    ensures
        sorted(s).contains(x) == s.contains(x),
{
    broadcast use vstd::seq_lib::group_to_multiset_ensures;

    lemma_sorted(s);
    assert(sorted(s).contains(x) <==> sorted(s).to_multiset().count(x) > 0);
    assert(s.contains(x) <==> s.to_multiset().count(x) > 0);
}

/// The index at which inserting `x` keeps `v` in order.
fn insertion_point<T: Ordered>(v: &Vec<T>, x: &T) -> (n: usize)
    ensures
        n <= v@.len(),
        inserted(v@, *x) == v@.insert(n as int, *x),
{
    let mut n: usize = v.len();
    assert(v@.take(n as int) =~= v@);
    assert(inserted(v@, *x) =~= inserted(v@.take(n as int), *x) + v@.skip(n as int));
    while n > 0 && !v[n - 1].ranks_at_most(x)
        invariant
            n <= v@.len(),
            inserted(v@, *x) == inserted(v@.take(n as int), *x) + v@.skip(n as int),
        decreases n,
    {
        proof {
            let t = v@.take(n as int);
            assert(t.last() == v@[n - 1]);
            assert(t.drop_last() =~= v@.take(n - 1));
            assert(inserted(t, *x) + v@.skip(n as int) =~= inserted(v@.take(n - 1), *x) + v@.skip(
                n - 1,
            ));
        }
        n = n - 1;
    }
    proof {
        let t = v@.take(n as int);
        if n > 0 {
            assert(t.last() == v@[n - 1]);
        }
        assert(t.push(*x) + v@.skip(n as int) =~= v@.insert(n as int, *x));
    }
    n
}

/// Sorts the items, keeping those of equal rank in the order in which they came.
pub fn sort<T: Ordered>(items: Vec<T>) -> (r: Vec<T>)
    ensures
        r@ == sorted(items@),
{
    let mut rest: Vec<T> = items;
    let mut out: Vec<T> = Vec::new();
    let ghost mut done: int = 0;
    assert(rest@ =~= items@.skip(0));
    assert(items@.take(0) =~= Seq::<T>::empty());
    while rest.len() > 0
        invariant
            0 <= done <= items@.len(),
            rest@ == items@.skip(done),
            out@ == sorted(items@.take(done)),
        decreases rest@.len(),
    {
        let x: T = rest.remove(0);
        let at: usize = insertion_point(&out, &x);
        out.insert(at, x);
        proof {
            assert(items@.skip(done)[0] == items@[done]);
            assert(items@.take(done + 1).drop_last() =~= items@.take(done));
            assert(items@.take(done + 1).last() == items@[done]);
            assert(rest@ =~= items@.skip(done + 1));
            done = done + 1;
        }
    }
    assert(items@.take(done) =~= items@);
    out
}

/// `a` comes no later than `b` in the order of texts: character by character by
/// code point, a beginning before what it begins.
pub open spec fn text_at_most(a: Seq<char>, b: Seq<char>) -> bool
    decreases a.len(),
{
    if a.len() == 0 {
        true
    } else if b.len() == 0 {
        false
    } else if a[0] != b[0] {
        a[0] < b[0]
    } else {
        text_at_most(a.skip(1), b.skip(1))
    }
}

pub proof fn lemma_text_total(a: Seq<char>, b: Seq<char>)
    ensures
        text_at_most(a, b) || text_at_most(b, a),
        text_at_most(a, b) && text_at_most(b, a) ==> a == b,
        text_at_most(a, a),
    decreases a.len(),
{
    if a.len() > 0 {
        lemma_text_total(a.skip(1), a.skip(1));
        if b.len() > 0 {
            lemma_text_total(a.skip(1), b.skip(1));
            if a[0] == b[0] && a.skip(1) == b.skip(1) {
                assert(a =~= seq![a[0]] + a.skip(1));
                assert(b =~= seq![b[0]] + b.skip(1));
            }
        }
    } else if b.len() == 0 {
        assert(a =~= b);
    }
}

pub proof fn lemma_text_transitive(a: Seq<char>, b: Seq<char>, c: Seq<char>)
    requires
        text_at_most(a, b),
        text_at_most(b, c),
    ensures
        text_at_most(a, c),
    decreases a.len(),
{
    if a.len() > 0 && b.len() > 0 && c.len() > 0 && a[0] == b[0] && b[0] == c[0] {
        lemma_text_transitive(a.skip(1), b.skip(1), c.skip(1));
    }
}

/// Whether `a` comes no later than `b` in the order of texts.
pub fn str_at_most(a: &str, b: &str) -> (r: bool)
    ensures
        r == text_at_most(a@, b@),
{
    let x: Vec<char> = chars_of(a);
    let y: Vec<char> = chars_of(b);
    let mut i: usize = 0;
    assert(x@.skip(0) =~= x@);
    assert(y@.skip(0) =~= y@);
    while i < x.len()
        invariant
            i <= x@.len(),
            i <= y@.len(),
            x@ == a@,
            y@ == b@,
            text_at_most(x@, y@) == text_at_most(x@.skip(i as int), y@.skip(i as int)),
        decreases x@.len() - i,
    {
        if i >= y.len() {
            return false;
        }
        proof {
            assert(x@.skip(i as int)[0] == x@[i as int]);
            assert(y@.skip(i as int)[0] == y@[i as int]);
            assert(x@.skip(i as int).skip(1) =~= x@.skip(i + 1));
            assert(y@.skip(i as int).skip(1) =~= y@.skip(i + 1));
        }
        if x[i] != y[i] {
            return x[i] < y[i];
        }
        i = i + 1;
    }
    true
}

} // verus!
