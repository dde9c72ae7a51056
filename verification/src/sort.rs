//! Stable sorting by an integer key.

use vstd::prelude::*;

verus! {

broadcast use vstd::seq_lib::group_seq_properties;

/// Items that are ordered by an integer key read from their view.
pub trait SortKey: View + Sized {
    /// The key by which an item is ordered, lower keys first.
    spec fn key_of(v: Self::V) -> int;

    /// Computes the key of an item.
    fn sort_key(&self) -> (k: i128)
        ensures
            k as int == Self::key_of(self@),
    ;
}

/// The views of a sequence of items.
pub open spec fn views<T: View>(s: Seq<T>) -> Seq<T::V> {
    s.map_values(|x: T| x@)
}

/// Keys never decrease along `s`.
pub open spec fn sorted_by_key<T: SortKey>(s: Seq<T::V>) -> bool {
    forall|i: int, j: int| 0 <= i < j < s.len() ==> T::key_of(s[i]) <= T::key_of(s[j])
}

/// Holds of the views whose key is `k`.
pub open spec fn key_is<T: SortKey>(k: int) -> spec_fn(T::V) -> bool {
    |x: T::V| T::key_of(x) == k
}

/// The elements of `s` whose key is `k`, in their order in `s`.
pub open spec fn with_key<T: SortKey>(s: Seq<T::V>, k: int) -> Seq<T::V> {
    s.filter(key_is::<T>(k))
}

/// `out` is `inp` sorted by key, with elements of equal key in their order in `inp`.
/// (Together the two clauses fix `out`, and make it a permutation of `inp`.)
pub open spec fn stably_sorted<T: SortKey>(out: Seq<T::V>, inp: Seq<T::V>) -> bool {
    &&& sorted_by_key::<T>(out)
    &&& forall|k: int| #[trigger] with_key::<T>(out, k) == with_key::<T>(inp, k)
}

proof fn lemma_with_key_none<T: SortKey>(s: Seq<T::V>, k: int)
    requires
        forall|i: int| 0 <= i < s.len() ==> T::key_of(s[i]) != k,
    ensures
        with_key::<T>(s, k) == Seq::<T::V>::empty(),
    decreases s.len(),
{
    if s.len() > 0 {
        let t = s.drop_last();
        lemma_with_key_none::<T>(t, k);
        t.lemma_filter_push(s.last(), key_is::<T>(k));
        assert(t.push(s.last()) =~= s);
    }
}

proof fn lemma_insert_keeps_order<T: SortKey>(out: Seq<T::V>, pos: int, x: T::V, inp: Seq<T::V>)
    requires
        0 <= pos <= out.len(),
        sorted_by_key::<T>(out),
        forall|j: int| 0 <= j < pos ==> T::key_of(out[j]) <= T::key_of(x),
        forall|j: int| pos <= j < out.len() ==> T::key_of(out[j]) > T::key_of(x),
        forall|k: int| #[trigger] with_key::<T>(out, k) == with_key::<T>(inp, k),
    ensures
        sorted_by_key::<T>(out.insert(pos, x)),
        forall|k: int|
            #[trigger] with_key::<T>(out.insert(pos, x), k) == with_key::<T>(inp.push(x), k),
{
    let a = out.take(pos);
    let b = out.skip(pos);
    assert(out =~= a + b);
    assert(out.insert(pos, x) =~= a + seq![x] + b);
    assert forall|k: int|
        #[trigger] with_key::<T>(out.insert(pos, x), k) == with_key::<T>(inp.push(x), k) by {
        let p = key_is::<T>(k);
        let ax = a + seq![x];
        assert(ax =~= a.push(x));
        Seq::filter_distributes_over_add(ax, b, p);
        Seq::filter_distributes_over_add(a, b, p);
        inp.lemma_filter_push(x, p);
        a.lemma_filter_push(x, p);
        assert(with_key::<T>(out.insert(pos, x), k) == with_key::<T>(ax, k) + with_key::<T>(b, k));
        assert(with_key::<T>(out, k) == with_key::<T>(a, k) + with_key::<T>(b, k));
        if T::key_of(x) == k {
            lemma_with_key_none::<T>(b, k);
            assert(with_key::<T>(a, k) + with_key::<T>(b, k) =~= with_key::<T>(a, k));
            assert(with_key::<T>(a, k).push(x) + with_key::<T>(b, k) =~= with_key::<T>(a, k).push(x));
        } else {
            assert(with_key::<T>(ax, k) == with_key::<T>(a, k));
        }
    }
}

/// The empty sequence is its own stable sort.
pub proof fn lemma_empty_stably_sorted<T: SortKey>()
    ensures
        stably_sorted::<T>(Seq::<T::V>::empty(), Seq::<T::V>::empty()),
{
}

/// Sorts items by key, keeping items of equal key in the order they came in.
pub fn sort_stable<T: SortKey>(items: Vec<T>) -> (res: Vec<T>)
    ensures
        stably_sorted::<T>(views(res@), views(items@)),
{
    let ghost orig = views(items@);
    let mut input = items;
    let mut out: Vec<T> = Vec::new();
    let ghost mut done: int = 0;
    assert(orig.take(0) =~= Seq::<T::V>::empty());
    assert(views(input@).skip(0) =~= views(input@));
    while input.len() > 0
        invariant
            0 <= done <= orig.len(),
            views(input@) == orig.skip(done),
            sorted_by_key::<T>(views(out@)),
            forall|k: int| #[trigger] with_key::<T>(views(out@), k) == with_key::<T>(orig.take(done), k),
        decreases input.len(),
    {
        let ghost before = views(out@);
        let ghost old_input = input@;
        assert(views(old_input).len() == old_input.len());
        assert(done < orig.len());
        let x = input.remove(0);
        let kx = x.sort_key();
        assert(views(old_input)[0] == old_input[0]@);
        assert(orig.skip(done)[0] == orig[done]);
        assert(x@ == orig[done]);
        let mut pos: usize = 0;
        while pos < out.len() && out[pos].sort_key() <= kx
            invariant
                pos <= out.len(),
                views(out@) == before,
                forall|j: int| 0 <= j < pos ==> T::key_of(before[j]) <= kx,
            decreases out.len() - pos,
        {
            pos = pos + 1;
        }
        proof {
            assert forall|j: int| pos <= j < before.len() implies T::key_of(before[j]) > kx by {
                assert(T::key_of(before[pos as int]) > kx);
            }
            lemma_insert_keeps_order::<T>(before, pos as int, x@, orig.take(done));
        }
        out.insert(pos, x);
        proof {
            assert(views(out@) =~= before.insert(pos as int, x@));
            assert(orig.take(done).push(x@) =~= orig.take(done + 1));
            assert(views(input@) =~= orig.skip(done + 1));
            done = done + 1;
        }
    }
    assert(orig.take(done) =~= orig);
    out
}

} // verus!

verus! {

proof fn lemma_count_within_key<T: SortKey>(s: Seq<T::V>, v: T::V)
    ensures
        s.to_multiset().count(v) == with_key::<T>(s, T::key_of(v)).to_multiset().count(v),
    decreases s.len(),
{
    broadcast use vstd::seq_lib::group_to_multiset_ensures;
    broadcast use vstd::multiset::group_multiset_axioms;

    if s.len() == 0 {
        assert(with_key::<T>(s, T::key_of(v)) =~= s) by {
            reveal(Seq::filter);
        }
    } else {
        let t = s.drop_last();
        let x = s.last();
        lemma_count_within_key::<T>(t, v);
        t.lemma_filter_push(x, key_is::<T>(T::key_of(v)));
        assert(t.push(x) =~= s);
    }
}

/// Law: a stable sort keeps every item, each as often as it occurs: the
/// sorted sequence is a permutation of the input.
pub proof fn lemma_stable_sort_permutes<T: SortKey>(out: Seq<T::V>, inp: Seq<T::V>)
    requires
        stably_sorted::<T>(out, inp),
    ensures
        out.to_multiset() =~= inp.to_multiset(),
        out.len() == inp.len(),
{
    broadcast use vstd::seq_lib::group_to_multiset_ensures;

    assert forall|v: T::V| out.to_multiset().count(v) == inp.to_multiset().count(v) by {
        lemma_count_within_key::<T>(out, v);
        lemma_count_within_key::<T>(inp, v);
        assert(with_key::<T>(out, T::key_of(v)) == with_key::<T>(inp, T::key_of(v)));
    }
    assert(out.to_multiset() =~= inp.to_multiset());
    assert(out.to_multiset().len() == out.len());
    assert(inp.to_multiset().len() == inp.len());
}

} // verus!

verus! {

proof fn lemma_group_of_last<T: SortKey>(a: Seq<T::V>)
    requires
        a.len() > 0,
    ensures
        with_key::<T>(a, T::key_of(a.last())) == with_key::<T>(
            a.drop_last(),
            T::key_of(a.last()),
        ).push(a.last()),
        forall|k: int|
            k != T::key_of(a.last()) ==> #[trigger] with_key::<T>(a, k) == with_key::<T>(
                a.drop_last(),
                k,
            ),
{
    assert(a.drop_last().push(a.last()) =~= a);
    a.drop_last().lemma_filter_push(a.last(), key_is::<T>(T::key_of(a.last())));
    assert forall|k: int| k != T::key_of(a.last()) implies #[trigger] with_key::<T>(a, k)
        == with_key::<T>(a.drop_last(), k) by {
        a.drop_last().lemma_filter_push(a.last(), key_is::<T>(k));
    }
}

proof fn lemma_key_at_most_last<T: SortKey>(a: Seq<T::V>, k: int)
    requires
        sorted_by_key::<T>(a),
        with_key::<T>(a, k).len() > 0,
    ensures
        a.len() > 0,
        k <= T::key_of(a.last()),
{
    let p = key_is::<T>(k);
    let f = a.filter(p);
    assert(f.contains(f[0]));
    a.lemma_filter_contains_rev(p, f[0]);
    a.lemma_filter_pred(p, 0);
    let i = choose|i: int| 0 <= i < a.len() && a[i] == f[0];
    if i < a.len() - 1 {
        assert(T::key_of(a[i]) <= T::key_of(a[a.len() - 1]));
    }
}

proof fn lemma_same_groups_equal<T: SortKey>(a: Seq<T::V>, b: Seq<T::V>)
    requires
        sorted_by_key::<T>(a),
        sorted_by_key::<T>(b),
        forall|k: int| #[trigger] with_key::<T>(a, k) == with_key::<T>(b, k),
    ensures
        a == b,
    decreases a.len() + b.len(),
{
    if a.len() == 0 && b.len() == 0 {
        assert(a =~= b);
    } else if a.len() == 0 {
        lemma_group_of_last::<T>(b);
        lemma_key_at_most_last::<T>(a, T::key_of(b.last()));
    } else {
        lemma_group_of_last::<T>(a);
        let ka = T::key_of(a.last());
        lemma_key_at_most_last::<T>(b, ka);
        lemma_group_of_last::<T>(b);
        let kb = T::key_of(b.last());
        lemma_key_at_most_last::<T>(a, kb);
        assert(ka == kb);
        assert(with_key::<T>(a, ka).last() == a.last());
        assert(with_key::<T>(b, ka).last() == b.last());
        let a2 = a.drop_last();
        let b2 = b.drop_last();
        assert forall|k: int| #[trigger] with_key::<T>(a2, k) == with_key::<T>(b2, k) by {
            if k == ka {
                assert(with_key::<T>(a2, k) =~= with_key::<T>(a, k).drop_last());
                assert(with_key::<T>(b2, k) =~= with_key::<T>(b, k).drop_last());
            } else {
                assert(with_key::<T>(a, k) == with_key::<T>(a2, k));
                assert(with_key::<T>(b, k) == with_key::<T>(b2, k));
            }
        }
        lemma_same_groups_equal::<T>(a2, b2);
        assert(a =~= a2.push(a.last()));
        assert(b =~= b2.push(b.last()));
    }
}

/// Law: the stable sort of a sequence is unique: two sequences that both
/// sort the same input stably are equal.
pub proof fn lemma_stable_sort_unique<T: SortKey>(out1: Seq<T::V>, out2: Seq<T::V>, inp: Seq<T::V>)
    requires
        stably_sorted::<T>(out1, inp),
        stably_sorted::<T>(out2, inp),
    ensures
        out1 == out2,
{
    assert forall|k: int| #[trigger] with_key::<T>(out1, k) == with_key::<T>(out2, k) by {
        assert(with_key::<T>(out1, k) == with_key::<T>(inp, k));
        assert(with_key::<T>(out2, k) == with_key::<T>(inp, k));
    }
    lemma_same_groups_equal::<T>(out1, out2);
}

} // verus!

verus! {

/// Law: every element of a stable sort is an element of the input.
pub proof fn lemma_sorted_elements_from_input<T: SortKey>(out: Seq<T::V>, inp: Seq<T::V>)
    requires
        stably_sorted::<T>(out, inp),
    ensures
        forall|i: int| 0 <= i < out.len() ==> inp.contains(#[trigger] out[i]),
{
    broadcast use vstd::seq_lib::group_to_multiset_ensures;

    lemma_stable_sort_permutes::<T>(out, inp);
    assert forall|i: int| 0 <= i < out.len() implies inp.contains(#[trigger] out[i]) by {
        assert(out.contains(out[i]));
        assert(out.to_multiset().count(out[i]) > 0);
    }
}

} // verus!
