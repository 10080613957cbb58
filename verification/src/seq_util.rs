use vstd::prelude::*;

verus! {

/// Filtering keeps the order of what it keeps: two places of the filtered
/// sequence come from two places of the unfiltered one that lie the same
/// way round, and every place of it holds an element that passes.
pub proof fn lemma_filter_order<A>(s: Seq<A>, pred: spec_fn(A) -> bool)
    ensures
        s.filter(pred).len() <= s.len(),
        forall|k: int|
            0 <= k < s.filter(pred).len() ==> pred(#[trigger] s.filter(pred)[k]) && s.contains(
                s.filter(pred)[k],
            ),
        forall|k1: int, k2: int|
            0 <= k1 < k2 < s.filter(pred).len() ==> exists|i1: int, i2: int|
                0 <= i1 < i2 < s.len() && s[i1] == #[trigger] s.filter(pred)[k1] && s[i2]
                    == #[trigger] s.filter(pred)[k2],
    decreases s.len(),
{
    reveal(Seq::filter);
    let f = s.filter(pred);
    if s.len() > 0 {
        let init = s.drop_last();
        let g = init.filter(pred);
        lemma_filter_order(init, pred);
        assert forall|k: int| 0 <= k < f.len() implies pred(#[trigger] f[k]) && s.contains(
            f[k],
        ) by {
            if k < g.len() {
                assert(f[k] == g[k]);
                let i = choose|i: int| 0 <= i < init.len() && init[i] == g[k];
                assert(s[i] == f[k]);
            } else {
                assert(f[k] == s.last());
                assert(s[s.len() - 1] == f[k]);
            }
        }
        assert forall|k1: int, k2: int| 0 <= k1 < k2 < f.len() implies exists|i1: int, i2: int|
            0 <= i1 < i2 < s.len() && s[i1] == #[trigger] f[k1] && s[i2] == #[trigger] f[k2] by {
            if k2 < g.len() {
                assert(f[k1] == g[k1] && f[k2] == g[k2]);
                let (i1, i2) = choose|i1: int, i2: int|
                    0 <= i1 < i2 < init.len() && init[i1] == g[k1] && init[i2] == g[k2];
                assert(s[i1] == f[k1] && s[i2] == f[k2]);
            } else {
                assert(f[k1] == g[k1]);
                assert(init.contains(g[k1]));
                let i1 = choose|i: int| 0 <= i < init.len() && init[i] == g[k1];
                let i2 = s.len() - 1;
                assert(s[i1] == f[k1] && s[i2] == f[k2]);
            }
        }
    }
}

/// An element is in the filtered sequence exactly if it is in the
/// unfiltered one and passes.
pub proof fn lemma_filter_members<A>(s: Seq<A>, pred: spec_fn(A) -> bool)
    ensures
        forall|x: A| #[trigger] s.filter(pred).contains(x) <==> s.contains(x) && pred(x),
    decreases s.len(),
{
    reveal(Seq::filter);
    let f = s.filter(pred);
    lemma_filter_order(s, pred);
    assert forall|x: A| s.contains(x) && pred(x) implies #[trigger] f.contains(x) by {
        let i = choose|i: int| 0 <= i < s.len() && s[i] == x;
        s.lemma_filter_contains(pred, i);
    }
}

/// Filtering after one more element: the element is appended if it passes.
pub proof fn lemma_filter_push<A>(s: Seq<A>, x: A, pred: spec_fn(A) -> bool)
    ensures
        s.push(x).filter(pred) == if pred(x) {
            s.filter(pred).push(x)
        } else {
            s.filter(pred)
        },
{
    reveal(Seq::filter);
    assert(s.push(x).drop_last() =~= s);
}

/// Filtering the first `i + 1` elements, from filtering the first `i`.
pub proof fn lemma_filter_take<A>(s: Seq<A>, i: int, pred: spec_fn(A) -> bool)
    requires
        0 <= i < s.len(),
    ensures
        s.take(i + 1).filter(pred) == if pred(s[i]) {
            s.take(i).filter(pred).push(s[i])
        } else {
            s.take(i).filter(pred)
        },
{
    assert(s.take(i + 1) =~= s.take(i).push(s[i]));
    lemma_filter_push(s.take(i), s[i], pred);
}

/// What passes among the first `i` elements stands at the front of what
/// passes among all.
pub proof fn lemma_filter_prefix<A>(s: Seq<A>, i: int, pred: spec_fn(A) -> bool)
    requires
        0 <= i <= s.len(),
    ensures
        s.take(i).filter(pred).len() <= s.filter(pred).len(),
        s.filter(pred).take(s.take(i).filter(pred).len() as int) == s.take(i).filter(pred),
    decreases s.len() - i,
{
    if i == s.len() {
        assert(s.take(i) =~= s);
        assert(s.filter(pred).take(s.filter(pred).len() as int) =~= s.filter(pred));
    } else {
        lemma_filter_take(s, i, pred);
        lemma_filter_prefix(s, i + 1, pred);
        let a = s.take(i).filter(pred);
        let b = s.take(i + 1).filter(pred);
        let w = s.filter(pred);
        assert(w.take(a.len() as int) =~= w.take(b.len() as int).take(a.len() as int));
        assert(b.take(a.len() as int) =~= a);
    }
}

/// Where no element passes, nothing is left; where all pass, all are.
pub proof fn lemma_filter_none_or_all<A>(s: Seq<A>, pred: spec_fn(A) -> bool)
    ensures
        (forall|i: int| 0 <= i < s.len() ==> !pred(#[trigger] s[i])) ==> s.filter(pred)
            == Seq::<A>::empty(),
        (forall|i: int| 0 <= i < s.len() ==> pred(#[trigger] s[i])) ==> s.filter(pred) == s,
    decreases s.len(),
{
    reveal(Seq::filter);
    if s.len() > 0 {
        let init = s.drop_last();
        lemma_filter_none_or_all(init, pred);
        if forall|i: int| 0 <= i < s.len() ==> !pred(#[trigger] s[i]) {
            assert forall|i: int| 0 <= i < init.len() implies !pred(#[trigger] init[i]) by {
                assert(init[i] == s[i]);
            }
            assert(!pred(s[s.len() - 1]));
        }
        if forall|i: int| 0 <= i < s.len() ==> pred(#[trigger] s[i]) {
            assert forall|i: int| 0 <= i < init.len() implies pred(#[trigger] init[i]) by {
                assert(init[i] == s[i]);
            }
            assert(pred(s[s.len() - 1]));
            assert(init.push(s.last()) =~= s);
        }
    } else {
        assert(s =~= Seq::<A>::empty());
    }
}

/// Filtering leaves the length as it is exactly where every element
/// passes.
pub proof fn lemma_filter_keeps_all<A>(s: Seq<A>, pred: spec_fn(A) -> bool)
    ensures
        s.filter(pred).len() == s.len() <==> forall|i: int|
            0 <= i < s.len() ==> pred(#[trigger] s[i]),
    decreases s.len(),
{
    reveal(Seq::filter);
    if s.len() > 0 {
        let init = s.drop_last();
        lemma_filter_keeps_all(init, pred);
        lemma_filter_order(init, pred);
        if s.filter(pred).len() == s.len() {
            assert(pred(s.last()));
            assert forall|i: int| 0 <= i < s.len() implies pred(#[trigger] s[i]) by {
                if i < init.len() {
                    assert(init[i] == s[i]);
                }
            }
        }
        if forall|i: int| 0 <= i < s.len() ==> pred(#[trigger] s[i]) {
            assert(pred(s[s.len() - 1]));
            assert forall|i: int| 0 <= i < init.len() implies pred(#[trigger] init[i]) by {
                assert(init[i] == s[i]);
            }
        }
    }
}

} // verus!
