//! Sorting that keeps the order of equals, and the order of texts.

use crate::text::{chars_of, lemma_filter_one};
use vstd::prelude::*;

verus! {

/// The sorted list `s` with `x` put behind all that may come before it.
pub open spec fn put_in_order<A>(s: Seq<A>, x: A, le: spec_fn(A, A) -> bool) -> Seq<A>
    decreases s.len(),
{
    if s.len() == 0 || le(s.last(), x) {
        s.push(x)
    } else {
        put_in_order(s.drop_last(), x, le).push(s.last())
    }
}

/// The items of `s` in the order `le`; what `le` holds to be equal keeps its order.
pub open spec fn in_order<A>(s: Seq<A>, le: spec_fn(A, A) -> bool) -> Seq<A>
    decreases s.len(),
{
    if s.len() == 0 {
        s
    } else {
        put_in_order(in_order(s.drop_last(), le), s.last(), le)
    }
}

/// Whether of any two items the earlier may come before the later.
pub open spec fn is_in_order<A>(s: Seq<A>, le: spec_fn(A, A) -> bool) -> bool {
    forall|i: int, j: int| 0 <= i < j < s.len() ==> le(#[trigger] s[i], #[trigger] s[j])
}

/// Whether `le` orders all items: any two one way or the other, and chains of them.
pub open spec fn orders<A>(le: spec_fn(A, A) -> bool) -> bool {
    &&& forall|a: A, b: A| #[trigger] le(a, b) || le(b, a)
    &&& forall|a: A, b: A, c: A| #[trigger] le(a, b) && #[trigger] le(b, c) ==> le(a, c)
}

/// Putting an item in order is inserting it at its place.
pub proof fn lemma_put_in_order<A>(s: Seq<A>, x: A, le: spec_fn(A, A) -> bool, k: int)
    requires
        0 <= k <= s.len(),
        k > 0 ==> le(s[k - 1], x),
        forall|j: int| k <= j < s.len() ==> !le(#[trigger] s[j], x),
    ensures
        put_in_order(s, x, le) == s.insert(k, x),
    decreases s.len(),
{
    if k == s.len() {
        assert(s.insert(k, x) =~= s.push(x));
    } else {
        lemma_put_in_order(s.drop_last(), x, le, k);
        assert(s.drop_last().insert(k, x).push(s.last()) =~= s.insert(k, x));
    }
}

/// Putting an item in order adds it and nothing else, and keeps a sorted list sorted.
pub proof fn lemma_put_in_order_sorted<A>(s: Seq<A>, x: A, le: spec_fn(A, A) -> bool)
    requires
        orders(le),
        is_in_order(s, le),
    ensures
        is_in_order(put_in_order(s, x, le), le),
        put_in_order(s, x, le).to_multiset() == s.to_multiset().insert(x),
        put_in_order(s, x, le).len() == s.len() + 1,
    decreases s.len(),
{
    broadcast use vstd::seq_lib::group_to_multiset_ensures;

    let r = put_in_order(s, x, le);
    if s.len() == 0 || le(s.last(), x) {
        assert forall|i: int, j: int| 0 <= i < j < r.len() implies le(
            #[trigger] r[i],
            #[trigger] r[j],
        ) by {
            if j == s.len() {
                if i < s.len() - 1 {
                    assert(le(s[i], s.last()));
                }
            }
        }
    } else {
        let front = s.drop_last();
        lemma_put_in_order_sorted(front, x, le);
        let q = put_in_order(front, x, le);
        assert(front.push(s.last()) =~= s);
        assert(r.to_multiset() =~= s.to_multiset().insert(x));
        assert forall|i: int, j: int| 0 <= i < j < r.len() implies le(
            #[trigger] r[i],
            #[trigger] r[j],
        ) by {
            if j == q.len() {
                assert(q.to_multiset().count(q[i]) > 0) by {
                    assert(q.contains(q[i]));
                }
                assert(front.to_multiset().insert(x).count(q[i]) > 0);
                if q[i] != x {
                    assert(front.to_multiset().count(q[i]) > 0);
                    assert(front.contains(q[i]));
                    let k = choose|k: int| 0 <= k < front.len() && front[k] == q[i];
                    assert(le(s[k], s[s.len() - 1]));
                } else {
                    assert(le(x, s.last()));
                }
            }
        }
    }
}

/// Sorting keeps every item as often as it was there, adds none, and puts them in order.
pub proof fn law_in_order_sorts<A>(s: Seq<A>, le: spec_fn(A, A) -> bool)
    requires
        orders(le),
    ensures
        is_in_order(in_order(s, le), le),
        in_order(s, le).to_multiset() == s.to_multiset(),
        in_order(s, le).len() == s.len(),
    decreases s.len(),
{
    broadcast use vstd::seq_lib::group_to_multiset_ensures;

    if s.len() > 0 {
        law_in_order_sorts(s.drop_last(), le);
        lemma_put_in_order_sorted(in_order(s.drop_last(), le), s.last(), le);
        assert(s.drop_last().push(s.last()) =~= s);
    }
}

/// Whether the text `a` comes before `b` or is the same, by the code points of the first
/// characters that differ.
pub open spec fn text_le(a: Seq<char>, b: Seq<char>) -> bool
    decreases a.len(),
{
    if a.len() == 0 {
        true
    } else if b.len() == 0 {
        false
    } else if a[0] == b[0] {
        text_le(a.drop_first(), b.drop_first())
    } else {
        a[0] < b[0]
    }
}

/// The order of texts is total and transitive.
pub proof fn lemma_text_le(a: Seq<char>, b: Seq<char>, c: Seq<char>)
    ensures
        text_le(a, b) || text_le(b, a),
        text_le(a, b) && text_le(b, c) ==> text_le(a, c),
    decreases a.len() + b.len() + c.len(),
{
    if a.len() > 0 && b.len() > 0 {
        if c.len() > 0 {
            lemma_text_le(a.drop_first(), b.drop_first(), c.drop_first());
        } else {
            lemma_text_le(a.drop_first(), b.drop_first(), c);
        }
    }
}

/// Whether the text `a` comes before `b` or is the same.
pub fn text_before(a: &str, b: &str) -> (r: bool)
    ensures
        r == text_le(a@, b@),
{
    let x = chars_of(a);
    let y = chars_of(b);
    let mut i: usize = 0;
    proof {
        assert(x@.skip(0) =~= x@);
        assert(y@.skip(0) =~= y@);
    }
    while i < x.len()
        invariant
            x@ == a@,
            y@ == b@,
            i <= x@.len(),
            i <= y@.len(),
            text_le(x@, y@) == text_le(x@.skip(i as int), y@.skip(i as int)),
        decreases x@.len() - i,
    {
        if i == y.len() {
            return false;
        }
        if x[i] != y[i] {
            return x[i] < y[i];
        }
        proof {
            assert(x@.skip(i as int).drop_first() =~= x@.skip(i + 1));
            assert(y@.skip(i as int).drop_first() =~= y@.skip(i + 1));
        }
        i += 1;
    }
    true
}

/// Texts are ordered by the first character in which they differ, and a text comes before all that
/// begin with it.
pub proof fn law_texts_are_ordered_by_their_first_difference(
    common: Seq<char>,
    a: Seq<char>,
    b: Seq<char>,
)
    ensures
        text_le(common, common + b),
        b.len() > 0 ==> !text_le(common + b, common),
        a.len() > 0 && b.len() > 0 && a[0] != b[0] ==> text_le(common + a, common + b) == (a[0]
            < b[0]),
    decreases common.len(),
{
    if common.len() == 0 {
        assert(common + a =~= a);
        assert(common + b =~= b);
    } else {
        let rest = common.drop_first();
        law_texts_are_ordered_by_their_first_difference(rest, a, b);
        assert((common + a).drop_first() =~= rest + a);
        assert((common + b).drop_first() =~= rest + b);
    }
}

proof fn lemma_put_in_order_stable<A>(s: Seq<A>, x: A, le: spec_fn(A, A) -> bool, y: A)
    requires
        orders(le),
    ensures
        put_in_order(s, x, le).filter(|z: A| le(y, z) && le(z, y)) == s.push(x).filter(
            |z: A| le(y, z) && le(z, y),
        ),
    decreases s.len(),
{
    let p = |z: A| le(y, z) && le(z, y);
    if s.len() > 0 && !le(s.last(), x) {
        let front = s.drop_last();
        let last = s.last();
        lemma_put_in_order_stable(front, x, le, y);
        assert(!(p(x) && p(last)));
        Seq::filter_distributes_over_add(put_in_order(front, x, le), seq![last], p);
        Seq::filter_distributes_over_add(front, seq![x], p);
        Seq::filter_distributes_over_add(front, seq![last], p);
        Seq::filter_distributes_over_add(front + seq![last], seq![x], p);
        lemma_filter_one(x, p);
        lemma_filter_one(last, p);
        assert(put_in_order(front, x, le) + seq![last] =~= put_in_order(s, x, le));
        assert(front + seq![x] =~= front.push(x));
        assert(front + seq![last] + seq![x] =~= s.push(x));
        assert(put_in_order(s, x, le).filter(p) =~= s.push(x).filter(p));
    }
}

/// Sorting keeps the order of what may stand either way: the items equal to any one item come in
/// the order in which they came before.
pub proof fn law_sorting_keeps_the_order_of_equals<A>(s: Seq<A>, le: spec_fn(A, A) -> bool, y: A)
    requires
        orders(le),
    ensures
        in_order(s, le).filter(|z: A| le(y, z) && le(z, y)) == s.filter(
            |z: A| le(y, z) && le(z, y),
        ),
    decreases s.len(),
{
    let p = |z: A| le(y, z) && le(z, y);
    if s.len() > 0 {
        let front = s.drop_last();
        let sorted = in_order(front, le);
        law_sorting_keeps_the_order_of_equals(front, le, y);
        lemma_put_in_order_stable(sorted, s.last(), le, y);
        Seq::filter_distributes_over_add(sorted, seq![s.last()], p);
        Seq::filter_distributes_over_add(front, seq![s.last()], p);
        assert(sorted + seq![s.last()] =~= sorted.push(s.last()));
        assert(front + seq![s.last()] =~= s);
    }
}

} // verus!
