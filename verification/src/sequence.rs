//! Lists in another order, and what a rule keeps of a list.
//!
//! A rule is a function that gives an item of a list a value or none; what it keeps of the list are
//! the values, in order.

use vstd::prelude::*;

verus! {

/// What stands at the places that `order` names.
pub open spec fn reordered<A>(s: Seq<A>, order: Seq<int>) -> Seq<A> {
    Seq::new(order.len(), |i: int| s[order[i]])
}

/// Whether `order` names each of the first `n` places once.
pub open spec fn rearranges(order: Seq<int>, n: nat) -> bool {
    &&& order.len() == n
    &&& order.no_duplicates()
    &&& forall|i: int| 0 <= i < order.len() ==> 0 <= #[trigger] order[i] < n
    &&& forall|x: int| 0 <= x < n ==> #[trigger] order.contains(x)
}

/// Whether the places of which a rule keeps something are named in their own order.
pub open spec fn keeps_order<A, B>(
    s: Seq<A>,
    order: Seq<int>,
    rule: spec_fn(A) -> Option<B>,
) -> bool {
    forall|i: int, j: int|
        0 <= i < j < order.len() && rule(s[#[trigger] order[i]]) is Some && rule(
            s[#[trigger] order[j]],
        ) is Some ==> order[i] < order[j]
}

/// Of two lists put together a rule keeps what it keeps of the one and then what it keeps of the
/// other.
pub proof fn lemma_kept_of_joined<A, B>(a: Seq<A>, b: Seq<A>, rule: spec_fn(A) -> Option<B>)
    ensures
        (a + b).filter_map(rule) == a.filter_map(rule) + b.filter_map(rule),
    decreases b.len(),
{
    if b.len() == 0 {
        assert(a + b =~= a);
        assert(a.filter_map(rule) + b.filter_map(rule) =~= a.filter_map(rule));
    } else {
        lemma_kept_of_joined(a, b.drop_last(), rule);
        assert((a + b).drop_last() =~= a + b.drop_last());
        assert((a + b).filter_map(rule) =~= a.filter_map(rule) + b.filter_map(rule));
    }
}

/// What a rule keeps of a list, seen from one of its places.
proof fn lemma_kept_around<A, B>(s: Seq<A>, j: int, rule: spec_fn(A) -> Option<B>)
    requires
        0 <= j < s.len(),
    ensures
        s.remove(j).filter_map(rule) == s.take(j).filter_map(rule) + s.skip(j + 1).filter_map(
            rule,
        ),
        s.filter_map(rule) == match rule(s[j]) {
            Some(value) => s.take(j).filter_map(rule).push(value) + s.skip(j + 1).filter_map(rule),
            None => s.take(j).filter_map(rule) + s.skip(j + 1).filter_map(rule),
        },
{
    let (front, one, back) = (s.take(j), seq![s[j]], s.skip(j + 1));
    assert(s =~= (front + one) + back);
    assert(s.remove(j) =~= front + back);
    lemma_kept_of_joined(front, back, rule);
    lemma_kept_of_joined(front + one, back, rule);
    assert((front + one).drop_last() =~= front);
    assert((front + one).last() == s[j]);
    if let Some(value) = rule(s[j]) {
        assert((front + one).filter_map(rule) =~= front.filter_map(rule).push(value));
    }
}

/// Of a list of which it keeps nothing item by item, a rule keeps nothing.
proof fn lemma_nothing_kept<A, B>(s: Seq<A>, rule: spec_fn(A) -> Option<B>)
    requires
        forall|i: int| 0 <= i < s.len() ==> rule(#[trigger] s[i]) is None,
    ensures
        s.filter_map(rule).len() == 0,
    decreases s.len(),
{
    if s.len() > 0 {
        assert(rule(s[s.len() - 1]) is None);
        lemma_nothing_kept(s.drop_last(), rule);
    }
}

/// A rule keeps the same of a list in another order, if what it keeps stays in order.
pub proof fn lemma_kept_of_reordered<A, B>(
    s: Seq<A>,
    order: Seq<int>,
    rule: spec_fn(A) -> Option<B>,
)
    requires
        rearranges(order, s.len()),
        keeps_order(s, order, rule),
    ensures
        reordered(s, order).filter_map(rule) == s.filter_map(rule),
    decreases s.len(),
{
    let all = reordered(s, order);
    if s.len() == 0 {
        assert(all =~= s);
    } else {
        let last = s.len() - 1;
        assert(order.contains(last));
        let m = choose|m: int| 0 <= m < order.len() && order[m] == last;
        let (less, fewer) = (s.drop_last(), order.remove(m));
        assert forall|i: int| 0 <= i < fewer.len() implies 0 <= #[trigger] fewer[i] < less.len() by {
            assert(fewer[i] == order[if i < m { i } else { i + 1 }]);
        }
        assert forall|x: int| 0 <= x < less.len() implies #[trigger] fewer.contains(x) by {
            assert(order.contains(x));
            let i = choose|i: int| 0 <= i < order.len() && order[i] == x;
            assert(fewer[if i < m { i } else { i - 1 }] == x);
        }
        assert forall|i: int, j: int|
            0 <= i < j < fewer.len() && rule(less[#[trigger] fewer[i]]) is Some && rule(
                less[#[trigger] fewer[j]],
            ) is Some implies fewer[i] < fewer[j] by {
            assert(fewer[i] == order[if i < m { i } else { i + 1 }]);
            assert(fewer[j] == order[if j < m { j } else { j + 1 }]);
        }
        lemma_kept_of_reordered(less, fewer, rule);
        assert(all.remove(m) =~= reordered(less, fewer));
        lemma_kept_around(all, m, rule);
        assert(all[m] == s[last]);
        if rule(s[last]) is Some {
            let back = all.skip(m + 1);
            assert forall|i: int| 0 <= i < back.len() implies rule(#[trigger] back[i]) is None by {
                assert(back[i] == s[order[m + 1 + i]]);
                assert(order[m] == last && 0 <= order[m + 1 + i] < s.len());
            }
            lemma_nothing_kept(back, rule);
            assert(all.filter_map(rule) =~= s.filter_map(rule));
        }
    }
}

/// Of two lists that hold the same items equally often a rule keeps the same equally often.
pub proof fn lemma_kept_equally_often<A, B>(a: Seq<A>, b: Seq<A>, rule: spec_fn(A) -> Option<B>)
    requires
        a.to_multiset() == b.to_multiset(),
    ensures
        a.filter_map(rule).to_multiset() == b.filter_map(rule).to_multiset(),
    decreases a.len(),
{
    a.to_multiset_ensures();
    b.to_multiset_ensures();
    assert(a.len() == b.len());
    if a.len() == 0 {
        assert(a =~= b);
    } else {
        let last = a.last();
        assert(a.contains(last));
        assert(a.to_multiset().count(last) > 0);
        assert(b.contains(last));
        let j = choose|j: int| 0 <= j < b.len() && b[j] == last;
        assert(a.drop_last() =~= a.remove(a.len() - 1));
        vstd::seq_lib::to_multiset_remove(a, a.len() - 1);
        vstd::seq_lib::to_multiset_remove(b, j);
        lemma_kept_equally_often(a.drop_last(), b.remove(j), rule);
        lemma_kept_without(b, j, rule);
        lemma_kept_without(a, a.len() - 1, rule);
    }
}

/// Without one of the items, what a rule keeps of it is missing and nothing else.
proof fn lemma_kept_without<A, B>(s: Seq<A>, j: int, rule: spec_fn(A) -> Option<B>)
    requires
        0 <= j < s.len(),
    ensures
        s.filter_map(rule).to_multiset() == match rule(s[j]) {
            Some(value) => s.remove(j).filter_map(rule).to_multiset().insert(value),
            None => s.remove(j).filter_map(rule).to_multiset(),
        },
{
    lemma_kept_around(s, j, rule);
    if let Some(value) = rule(s[j]) {
        let (front, back) = (s.take(j).filter_map(rule), s.skip(j + 1).filter_map(rule));
        assert(s.filter_map(rule) =~= (front + back).insert(front.len() as int, value));
        vstd::seq_lib::to_multiset_insert(front + back, front.len() as int, value);
    }
}

/// Two lists that hold the same equally often, and one thing only, are the same.
pub proof fn lemma_lists_of_one_thing<A>(a: Seq<A>, b: Seq<A>)
    requires
        a.to_multiset() == b.to_multiset(),
        forall|i: int, j: int|
            0 <= i < a.len() && 0 <= j < a.len() ==> #[trigger] a[i] == #[trigger] a[j],
    ensures
        a == b,
{
    a.to_multiset_ensures();
    b.to_multiset_ensures();
    assert forall|i: int| 0 <= i < a.len() implies a[i] == b[i] by {
        assert(b.contains(b[i]));
        assert(b.to_multiset().count(b[i]) > 0);
        assert(a.contains(b[i]));
    }
    assert(a =~= b);
}

} // verus!
