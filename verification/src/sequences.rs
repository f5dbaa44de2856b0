//! Facts about sequences.

use vstd::prelude::*;

verus! {

/// What is chosen of a sequence with one more item.
pub proof fn lemma_filter_map_push<A, B>(s: Seq<A>, x: A, f: spec_fn(A) -> Option<B>)
    ensures
        s.push(x).filter_map(f) == s.filter_map(f) + (match f(x) {
            Some(y) => seq![y],
            None => Seq::empty(),
        }),
{
    let t = s.push(x);
    t.lemma_filter_map_take_succ(f, s.len() as int);
    assert(t.take(s.len() as int + 1) =~= t);
    assert(t.take(s.len() as int) =~= s);
}

/// What is chosen of two sequences put together.
pub proof fn lemma_filter_map_apart<A, B>(a: Seq<A>, b: Seq<A>, f: spec_fn(A) -> Option<B>)
    ensures
        (a + b).filter_map(f) == a.filter_map(f) + b.filter_map(f),
    decreases b.len(),
{
    if b.len() == 0 {
        assert(a + b =~= a);
        assert(b.filter_map(f) =~= Seq::empty());
    } else {
        let c = b.drop_last();
        lemma_filter_map_apart(a, c, f);
        assert(b =~= c.push(b.last()));
        assert(a + b =~= (a + c).push(b.last()));
        lemma_filter_map_push(c, b.last(), f);
        lemma_filter_map_push(a + c, b.last(), f);
        assert((a + b).filter_map(f) =~= a.filter_map(f) + b.filter_map(f));
    }
}

/// Whatever an item comes to is among what is chosen.
pub proof fn lemma_filter_map_holds<A, B>(s: Seq<A>, f: spec_fn(A) -> Option<B>, i: int)
    requires
        0 <= i < s.len(),
        f(s[i]) is Some,
    ensures
        s.filter_map(f).contains(f(s[i])->0),
{
    let a = s.take(i);
    let b = s.skip(i + 1);
    assert(s =~= a.push(s[i]) + b);
    lemma_filter_map_apart(a.push(s[i]), b, f);
    lemma_filter_map_push(a, s[i], f);
    let k = a.filter_map(f).len() as int;
    assert(s.filter_map(f)[k] == f(s[i])->0);
}

/// Where every item comes to something, what is chosen holds one for each, in
/// their order.
pub proof fn lemma_filter_map_all<A, B>(s: Seq<A>, f: spec_fn(A) -> Option<B>)
    requires
        forall|i: int| 0 <= i < s.len() ==> f(#[trigger] s[i]) is Some,
    ensures
        s.filter_map(f).len() == s.len(),
        forall|i: int| 0 <= i < s.len() ==> f(s[i]) == Some(#[trigger] s.filter_map(f)[i]),
    decreases s.len(),
{
    if s.len() > 0 {
        let t = s.drop_last();
        assert forall|i: int| 0 <= i < t.len() implies f(#[trigger] t[i]) is Some by {
            assert(t[i] == s[i]);
        }
        lemma_filter_map_all(t, f);
        assert(s =~= t.push(s.last()));
        lemma_filter_map_push(t, s.last(), f);
        assert forall|i: int| 0 <= i < s.len() implies f(s[i]) == Some(
            #[trigger] s.filter_map(f)[i],
        ) by {
            if i < t.len() {
                assert(s[i] == t[i]);
                assert(s.filter_map(f)[i] == t.filter_map(f)[i]);
            } else {
                assert(s[i] == s.last());
            }
        }
    }
}

/// No more is chosen than there are items.
pub proof fn lemma_filter_map_len<A, B>(s: Seq<A>, f: spec_fn(A) -> Option<B>)
    ensures
        s.filter_map(f).len() <= s.len(),
    decreases s.len(),
{
    if s.len() > 0 {
        lemma_filter_map_len(s.drop_last(), f);
    }
}

/// Nothing is kept of a sequence of which no item is wanted.
pub proof fn lemma_filter_none<A>(s: Seq<A>, p: spec_fn(A) -> bool)
    requires
        forall|i: int| 0 <= i < s.len() ==> !p(#[trigger] s[i]),
    ensures
        s.filter(p).len() == 0,
{
    if s.filter(p).len() > 0 {
        let x = s.filter(p)[0];
        s.lemma_filter_pred(p, 0);
        assert(s.filter(p).contains(x));
        s.lemma_filter_contains_rev(p, x);
        let k = choose|k: int| 0 <= k < s.len() && s[k] == x;
        assert(!p(s[k]));
    }
}

/// The first of what is kept is the first item that is wanted.
pub proof fn lemma_filter_first<A>(s: Seq<A>, p: spec_fn(A) -> bool, k: int)
    requires
        0 <= k < s.len(),
        p(s[k]),
        forall|i: int| 0 <= i < k ==> !p(#[trigger] s[i]),
    ensures
        s.filter(p).len() > 0,
        s.filter(p)[0] == s[k],
{
    let a = s.take(k);
    let b = s.skip(k + 1);
    assert(s =~= a.push(s[k]) + b);
    assert forall|i: int| 0 <= i < a.len() implies !p(#[trigger] a[i]) by {
        assert(a[i] == s[i]);
    }
    lemma_filter_none(a, p);
    a.lemma_filter_push(s[k], p);
    Seq::filter_distributes_over_add(a.push(s[k]), b, p);
    assert(a.push(s[k]).filter(p)[0] == s[k]);
}

/// Where one item alone is wanted, it alone is kept.
pub proof fn lemma_filter_one<A>(s: Seq<A>, p: spec_fn(A) -> bool, k: int)
    requires
        0 <= k < s.len(),
        p(s[k]),
        forall|i: int| 0 <= i < s.len() && i != k ==> !p(#[trigger] s[i]),
    ensures
        s.filter(p).len() == 1,
        s.filter(p)[0] == s[k],
{
    lemma_filter_first(s, p, k);
    let a = s.take(k + 1);
    let b = s.skip(k + 1);
    assert(s =~= a + b);
    assert forall|i: int| 0 <= i < b.len() implies !p(#[trigger] b[i]) by {
        assert(b[i] == s[i + k + 1]);
    }
    lemma_filter_none(b, p);
    Seq::filter_distributes_over_add(a, b, p);
    let c = s.take(k);
    assert forall|i: int| 0 <= i < c.len() implies !p(#[trigger] c[i]) by {
        assert(c[i] == s[i]);
    }
    lemma_filter_none(c, p);
    c.lemma_filter_push(s[k], p);
    assert(a =~= c.push(s[k]));
}

/// Two items that are wanted are both kept.
pub proof fn lemma_filter_two<A>(s: Seq<A>, p: spec_fn(A) -> bool, i: int, j: int)
    requires
        0 <= i < j < s.len(),
        p(s[i]),
        p(s[j]),
    ensures
        s.filter(p).len() >= 2,
{
    let a = s.take(i + 1);
    let b = s.skip(i + 1);
    assert(s =~= a + b);
    Seq::filter_distributes_over_add(a, b, p);
    assert(a[i] == s[i]);
    a.lemma_filter_contains(p, i);
    assert(b[j - i - 1] == s[j]);
    b.lemma_filter_contains(p, j - i - 1);
}

/// The list of an attempt that succeeded; an attempt that failed has none.
pub open spec fn ok_list<T, E>(r: Result<Vec<T>, E>) -> Seq<T> {
    match r {
        Ok(v) => v@,
        Err(_) => Seq::empty(),
    }
}

/// The lists of attempts, one for each.
pub open spec fn ok_lists<T, E>(found: Seq<Result<Vec<T>, E>>) -> Seq<Seq<T>> {
    found.map_values(|r: Result<Vec<T>, E>| ok_list(r))
}

/// How many items some lists have together.
pub open spec fn total_len<T>(parts: Seq<Seq<T>>) -> nat
    decreases parts.len(),
{
    if parts.len() == 0 {
        0
    } else {
        total_len(parts.drop_last()) + parts.last().len()
    }
}

/// Lists put one after the other hold each item of each list, and as many items
/// as the lists have together.
pub proof fn lemma_flattened<T>(parts: Seq<Seq<T>>)
    ensures
        parts.flatten_alt().len() == total_len(parts),
        forall|k: int, i: int|
            0 <= k < parts.len() && 0 <= i < parts[k].len() ==> parts.flatten_alt().contains(
                #[trigger] parts[k][i],
            ),
    decreases parts.len(),
{
    if parts.len() > 0 {
        let init = parts.drop_last();
        lemma_flattened(init);
        let all = parts.flatten_alt();
        assert(all == init.flatten_alt() + parts.last());
        assert forall|k: int, i: int| 0 <= k < parts.len() && 0 <= i < parts[k].len() implies
            all.contains(#[trigger] parts[k][i]) by {
            if k < init.len() {
                assert(init[k][i] == parts[k][i]);
                let n = choose|n: int|
                    0 <= n < init.flatten_alt().len() && init.flatten_alt()[n] == init[k][i];
                assert(all[n] == parts[k][i]);
            } else {
                assert(all[init.flatten_alt().len() + i] == parts[k][i]);
            }
        }
    }
}

/// One more attempt adds its list at the end.
pub proof fn lemma_flattened_push<T, E>(found: Seq<Result<Vec<T>, E>>, r: Result<Vec<T>, E>)
    ensures
        ok_lists(found.push(r)).flatten_alt() == ok_lists(found).flatten_alt() + ok_list(r),
{
    assert(ok_lists(found.push(r)).drop_last() =~= ok_lists(found));
    assert(ok_lists(found.push(r)).last() == ok_list(r));
}

} // verus!
