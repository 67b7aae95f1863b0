//! Stable sorting: what it is, and that inserting one element at a time does it.
use vstd::prelude::*;

verus! {

/// A relation that compares any two elements and is transitive.
pub open spec fn total_preorder<V>(le: spec_fn(V, V) -> bool) -> bool {
    &&& forall|a: V, b: V| #[trigger] le(a, b) || le(b, a)
    &&& forall|a: V, b: V, c: V| #[trigger] le(a, b) && #[trigger] le(b, c) ==> le(a, c)
}

/// Whether two elements rank the same.
pub open spec fn ranks_same<V>(le: spec_fn(V, V) -> bool, a: V, b: V) -> bool {
    le(a, b) && le(b, a)
}

/// The elements that rank as `a` does, in their order.
pub open spec fn rank_class<V>(s: Seq<V>, le: spec_fn(V, V) -> bool, a: V) -> Seq<V> {
    s.filter(|b: V| ranks_same(le, a, b))
}

/// `out` holds the elements of `input` in order, and elements of one rank keep
/// the order that they had.
pub open spec fn stable_sort_of<V>(
    input: Seq<V>,
    out: Seq<V>,
    le: spec_fn(V, V) -> bool,
) -> bool {
    &&& forall|i: int, j: int|
        0 <= i < j < out.len() ==> le(#[trigger] out[i], #[trigger] out[j])
    &&& forall|a: V| #[trigger] rank_class(out, le, a) == rank_class(input, le, a)
    &&& out.to_multiset() == input.to_multiset()
}

/// Where nothing of a sequence satisfies a predicate, filtering leaves nothing.
proof fn lemma_filter_none<V>(s: Seq<V>, p: spec_fn(V) -> bool)
    requires
        forall|i: int| 0 <= i < s.len() ==> !p(#[trigger] s[i]),
    ensures
        s.filter(p) == Seq::<V>::empty(),
    decreases s.len(),
{
    reveal(Seq::filter);
    if s.len() > 0 {
        assert forall|i: int| 0 <= i < s.drop_last().len() implies !p(
            #[trigger] s.drop_last()[i],
        ) by {
            assert(s.drop_last()[i] == s[i]);
        }
        lemma_filter_none(s.drop_last(), p);
        assert(!p(s.last()));
    }
}

/// Filtering a sequence of one element.
proof fn lemma_filter_one<V>(x: V, p: spec_fn(V) -> bool)
    ensures
        seq![x].filter(p) == if p(x) {
            seq![x]
        } else {
            Seq::<V>::empty()
        },
{
    reveal_with_fuel(Seq::filter, 2);
    assert(seq![x].drop_last() =~= Seq::<V>::empty());
    assert(seq![x].drop_last().filter(p) == Seq::<V>::empty());
    assert(Seq::<V>::empty().push(x) =~= seq![x]);
}

/// Nothing is a stable sort of nothing.
pub proof fn lemma_sort_empty<V>(le: spec_fn(V, V) -> bool)
    ensures
        stable_sort_of(Seq::<V>::empty(), Seq::<V>::empty(), le),
{
}

/// Inserting `x` behind everything that ranks before it or as it does, and in
/// front of the rest, sorts the input with `x` at its end.
pub proof fn lemma_sort_insert<V>(
    input: Seq<V>,
    out: Seq<V>,
    le: spec_fn(V, V) -> bool,
    x: V,
    k: int,
)
    requires
        total_preorder(le),
        stable_sort_of(input, out, le),
        0 <= k <= out.len(),
        forall|i: int| 0 <= i < k ==> le(#[trigger] out[i], x),
        forall|i: int| k <= i < out.len() ==> !le(#[trigger] out[i], x),
    ensures
        stable_sort_of(input.push(x), out.insert(k, x), le),
{
    let put = out.insert(k, x);
    assert(put.to_multiset() == input.push(x).to_multiset()) by {
        broadcast use vstd::seq_lib::group_to_multiset_ensures;

        assert(put.remove(k) =~= out);
        assert(put[k] == x);
        assert(put.to_multiset() =~= out.to_multiset().insert(x));
    }
    assert forall|i: int, j: int| 0 <= i < j < put.len() implies le(
        #[trigger] put[i],
        #[trigger] put[j],
    ) by {
        if i < k && j > k {
            assert(le(out[i], out[j - 1]));
        } else if i == k && j > k {
            assert(!le(out[j - 1], x));
            assert(le(x, out[j - 1]) || le(out[j - 1], x));
        } else if i < k && j == k {
            assert(le(out[i], x));
        } else if j < k {
            assert(le(out[i], out[j]));
        } else {
            assert(le(out[i - 1], out[j - 1]));
        }
    }
    assert forall|a: V| #[trigger]
        rank_class(put, le, a) == rank_class(input.push(x), le, a) by {
        let p = |b: V| ranks_same(le, a, b);
        let front = out.take(k);
        let back = out.skip(k);
        assert(out =~= front + back);
        assert(put =~= front + seq![x] + back);
        assert(input.push(x) =~= input + seq![x]);
        Seq::filter_distributes_over_add(front, back, p);
        Seq::filter_distributes_over_add(front + seq![x], back, p);
        Seq::filter_distributes_over_add(front, seq![x], p);
        Seq::filter_distributes_over_add(input, seq![x], p);
        lemma_filter_one(x, p);
        assert(rank_class(out, le, a) == rank_class(input, le, a));
        if p(x) {
            assert forall|i: int| 0 <= i < back.len() implies !p(#[trigger] back[i]) by {
                assert(back[i] == out[k + i]);
                if p(back[i]) {
                    assert(le(back[i], a) && le(a, x));
                }
            }
            lemma_filter_none(back, p);
            assert(put.filter(p) =~= front.filter(p) + seq![x]);
            assert(input.push(x).filter(p) =~= input.filter(p) + seq![x]);
        } else {
            assert(put.filter(p) =~= front.filter(p) + back.filter(p));
            assert(input.push(x).filter(p) =~= input.filter(p));
        }
    }
}

/// Sorting loses nothing, adds nothing and puts what comes first in front.
pub proof fn law_sorting_orders<V>(input: Seq<V>, out: Seq<V>, le: spec_fn(V, V) -> bool, x: V)
    requires
        stable_sort_of(input, out, le),
    ensures
        out.contains(x) <==> input.contains(x),
        out.len() == input.len(),
        forall|i: int, j: int|
            0 <= i < j < out.len() ==> le(#[trigger] out[i], #[trigger] out[j]),
{
    broadcast use vstd::seq_lib::group_to_multiset_ensures;

    assert(out.to_multiset().count(x) == input.to_multiset().count(x));
    assert(out.to_multiset().len() == input.to_multiset().len());
}

} // verus!
