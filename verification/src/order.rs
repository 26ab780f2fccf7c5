use vstd::prelude::*;

verus! {

use vstd::multiset::Multiset;
use vstd::seq_lib::lemma_multiset_commutative;

/// `leq` is a total order: connected, antisymmetric and transitive.
pub open spec fn total_le<A>(leq: spec_fn(A, A) -> bool) -> bool {
    &&& forall|a: A, b: A| #![trigger leq(a, b)] leq(a, b) || leq(b, a)
    &&& forall|a: A, b: A| #![trigger leq(a, b)] leq(a, b) && leq(b, a) ==> a == b
    &&& forall|a: A, b: A, c: A|
        #![trigger leq(a, b), leq(b, c)]
        leq(a, b) && leq(b, c) ==> leq(a, c)
}

/// `eqv` is an equivalence relation.
pub open spec fn equiv_rel<A>(eqv: spec_fn(A, A) -> bool) -> bool {
    &&& forall|a: A| #[trigger] eqv(a, a)
    &&& forall|a: A, b: A| #![trigger eqv(a, b)] eqv(a, b) ==> eqv(b, a)
    &&& forall|a: A, b: A, c: A|
        #![trigger eqv(a, b), eqv(b, c)]
        eqv(a, b) && eqv(b, c) ==> eqv(a, c)
}

/// Between two `eqv`-equivalent elements, everything is `eqv`-equivalent to both:
/// the classes of `eqv` are contiguous under `leq`.
pub open spec fn convex_classes<A>(leq: spec_fn(A, A) -> bool, eqv: spec_fn(A, A) -> bool) -> bool {
    forall|a: A, b: A, c: A|
        #![trigger eqv(a, c), leq(a, b), leq(b, c)]
        eqv(a, c) && leq(a, b) && leq(b, c) ==> eqv(a, b)
}

pub open spec fn sorted_le<A>(s: Seq<A>, leq: spec_fn(A, A) -> bool) -> bool {
    forall|i: int, j: int| 0 <= i < j < s.len() ==> leq(#[trigger] s[i], #[trigger] s[j])
}

/// No two elements of `s` fall in the same `eqv` class.
pub open spec fn distinct_classes<A>(s: Seq<A>, eqv: spec_fn(A, A) -> bool) -> bool {
    forall|i: int, j: int| 0 <= i < j < s.len() ==> !eqv(#[trigger] s[i], #[trigger] s[j])
}

/// Inserts `x` into the sorted sequence `s`, before the first element
/// that is not below it.
pub open spec fn sorted_insert<A>(s: Seq<A>, x: A, leq: spec_fn(A, A) -> bool) -> Seq<A>
    decreases s.len(),
{
    if s.len() == 0 {
        seq![x]
    } else if leq(x, s[0]) {
        seq![x] + s
    } else {
        seq![s[0]] + sorted_insert(s.drop_first(), x, leq)
    }
}

/// Sorts `s` by repeated insertion.
pub open spec fn sort_by_insertion<A>(s: Seq<A>, leq: spec_fn(A, A) -> bool) -> Seq<A>
    decreases s.len(),
{
    if s.len() == 0 {
        Seq::empty()
    } else {
        sorted_insert(sort_by_insertion(s.drop_last(), leq), s.last(), leq)
    }
}

/// Collapses each run of `eqv`-equivalent elements to the run's last element.
pub open spec fn coalesce_keep_last<A>(s: Seq<A>, eqv: spec_fn(A, A) -> bool) -> Seq<A>
    decreases s.len(),
{
    if s.len() == 0 {
        Seq::empty()
    } else {
        let rest = coalesce_keep_last(s.drop_last(), eqv);
        if rest.len() > 0 && eqv(rest.last(), s.last()) {
            rest.update(rest.len() - 1, s.last())
        } else {
            rest.push(s.last())
        }
    }
}

/// Sorts, then keeps one representative (the `leq`-greatest) per `eqv` class.
pub open spec fn reduce_by<A>(
    s: Seq<A>,
    leq: spec_fn(A, A) -> bool,
    eqv: spec_fn(A, A) -> bool,
) -> Seq<A> {
    coalesce_keep_last(sort_by_insertion(s, leq), eqv)
}

/// What it means for `r` to reduce `s`: `r` is sorted, holds at most one
/// element per `eqv` class, all its elements come from `s`, every class
/// present in `s` is represented, and each representative dominates its class.
pub open spec fn is_class_reduction<A>(
    s: Seq<A>,
    r: Seq<A>,
    leq: spec_fn(A, A) -> bool,
    eqv: spec_fn(A, A) -> bool,
) -> bool {
    &&& sorted_le(r, leq)
    &&& distinct_classes(r, eqv)
    &&& forall|k: int| 0 <= k < r.len() ==> s.contains(#[trigger] r[k])
    &&& forall|c: A| #[trigger] s.contains(c) ==> exists|k: int| 0 <= k < r.len() && eqv(#[trigger] r[k], c)
    &&& forall|c: A, k: int|
        #![trigger eqv(r[k], c)]
        s.contains(c) && 0 <= k < r.len() && eqv(r[k], c) ==> leq(c, r[k])
}

/// Maps each element through `f`, keeping the values `f` yields.
pub open spec fn opt_map<A, B>(s: Seq<A>, f: spec_fn(A) -> Option<B>) -> Seq<B>
    decreases s.len(),
{
    if s.len() == 0 {
        Seq::empty()
    } else {
        let rest = opt_map(s.drop_last(), f);
        match f(s.last()) {
            Option::Some(b) => rest.push(b),
            Option::None => rest,
        }
    }
}

pub proof fn lemma_opt_map_distributes<A, B>(a: Seq<A>, b: Seq<A>, f: spec_fn(A) -> Option<B>)
    ensures
        opt_map(a + b, f) == opt_map(a, f) + opt_map(b, f),
    decreases b.len(),
{
    if b.len() == 0 {
        assert(a + b =~= a);
        assert(opt_map(a, f) + opt_map(b, f) =~= opt_map(a, f));
    } else {
        lemma_opt_map_distributes(a, b.drop_last(), f);
        assert((a + b).drop_last() =~= a + b.drop_last());
        assert((a + b).last() == b.last());
        match f(b.last()) {
            Option::Some(y) => {
                let lhs = (opt_map(a, f) + opt_map(b.drop_last(), f)).push(y);
                let rhs = opt_map(a, f) + opt_map(b.drop_last(), f).push(y);
                assert(lhs =~= rhs);
            },
            Option::None => {},
        }
    }
}

/// Every value in the image arises from some element of the source.
pub proof fn lemma_opt_map_origin<A, B>(s: Seq<A>, f: spec_fn(A) -> Option<B>, k: int)
    requires
        0 <= k < opt_map(s, f).len(),
    ensures
        exists|a: A| #[trigger] s.contains(a) && f(a) == Option::Some(opt_map(s, f)[k]),
    decreases s.len(),
{
    if s.len() > 0 {
        let rest = opt_map(s.drop_last(), f);
        let y = opt_map(s, f)[k];
        if f(s.last()) == Option::Some(y) && k == opt_map(s, f).len() - 1 {
            assert(s.contains(s.last()));
        } else {
            lemma_opt_map_origin(s.drop_last(), f, k);
            let a = choose|a: A|
                #[trigger] s.drop_last().contains(a) && f(a) == Option::Some(rest[k]);
            let w = choose|w: int| 0 <= w < s.drop_last().len() && s.drop_last()[w] == a;
            assert(s[w] == a);
            assert(s.contains(a));
        }
    }
}

/// The image under `opt_map` of two sequences with the same members, however
/// ordered or batched, has the same members.
pub proof fn lemma_opt_map_multiset<A, B>(s1: Seq<A>, s2: Seq<A>, f: spec_fn(A) -> Option<B>)
    requires
        s1.to_multiset() == s2.to_multiset(),
    ensures
        opt_map(s1, f).to_multiset() == opt_map(s2, f).to_multiset(),
    decreases s1.len(),
{
    broadcast use vstd::seq_lib::group_to_multiset_ensures;

    if s1.len() == 0 {
        assert(s2.to_multiset().len() == 0);
        assert(s1.to_multiset().len() == 0);
        assert(s2.len() == 0);
        assert(s1 =~= s2);
    } else {
        let x = s1.last();
        assert(s1.contains(x));
        assert(s1.to_multiset().count(x) > 0);
        assert(s2.contains(x));
        let k = choose|k: int| 0 <= k < s2.len() && s2[k] == x;
        let s2r = s2.remove(k);
        let s1r = s1.drop_last();
        assert(s1.remove(s1.len() - 1) =~= s1r);
        assert(s1r.to_multiset() == s1.to_multiset().remove(x));
        assert(s2r.to_multiset() == s2.to_multiset().remove(x));
        lemma_opt_map_multiset(s1r, s2r, f);
        // Decompose s2 around position k and distribute.
        let le = s2.take(k);
        let ri = s2.skip(k + 1);
        assert(s2 =~= le + (seq![x] + ri));
        assert(s2r =~= le + ri);
        lemma_opt_map_distributes(le, seq![x] + ri, f);
        lemma_opt_map_distributes(seq![x], ri, f);
        lemma_opt_map_distributes(le, ri, f);
        lemma_multiset_commutative(opt_map(le, f), opt_map(seq![x] + ri, f));
        lemma_multiset_commutative(opt_map(seq![x], f), opt_map(ri, f));
        lemma_multiset_commutative(opt_map(le, f), opt_map(ri, f));
        // opt_map of the singleton.
        assert(seq![x].drop_last() =~= Seq::<A>::empty());
        assert(seq![x].last() == x);
        assert(opt_map(Seq::<A>::empty(), f) == Seq::<B>::empty());
        // opt_map of s1 in terms of its last element.
        assert(s1.drop_last() == s1r);
        match f(x) {
            Option::Some(y) => {
                assert(opt_map(s1, f) == opt_map(s1r, f).push(y));
                assert(opt_map(seq![x], f) =~= Seq::<B>::empty().push(y));
                assert(opt_map(s1, f).to_multiset() =~= opt_map(s2, f).to_multiset());
            },
            Option::None => {
                assert(opt_map(s1, f) == opt_map(s1r, f));
                assert(opt_map(seq![x], f) =~= Seq::<B>::empty());
                assert(opt_map(seq![x], f).to_multiset() =~= Multiset::<B>::empty());
                assert(opt_map(s2, f).to_multiset() =~= opt_map(s2r, f).to_multiset());
            },
        }
    }
}

/// Where `x` belongs at position `j` of sorted `s`, insertion splits `s` there.
pub proof fn lemma_sorted_insert_position<A>(s: Seq<A>, x: A, leq: spec_fn(A, A) -> bool, j: int)
    requires
        0 <= j <= s.len(),
        forall|k: int| 0 <= k < j ==> !leq(x, #[trigger] s[k]),
        j < s.len() ==> leq(x, s[j]),
    ensures
        sorted_insert(s, x, leq) == s.take(j) + seq![x] + s.skip(j),
    decreases j,
{
    if j == 0 {
        if s.len() == 0 {
            assert(sorted_insert(s, x, leq) =~= s.take(0) + seq![x] + s.skip(0));
        } else {
            assert(seq![x] + s =~= s.take(0) + seq![x] + s.skip(0));
        }
    } else {
        assert(!leq(x, s[0]));
        let t = s.drop_first();
        assert forall|k: int| 0 <= k < j - 1 implies !leq(x, #[trigger] t[k]) by {
            assert(t[k] == s[k + 1]);
        }
        if j - 1 < t.len() {
            assert(t[j - 1] == s[j]);
        }
        lemma_sorted_insert_position(t, x, leq, j - 1);
        let lhs = seq![s[0]] + (t.take(j - 1) + seq![x] + t.skip(j - 1));
        let rhs = s.take(j) + seq![x] + s.skip(j);
        assert(lhs =~= rhs);
    }
}

pub proof fn lemma_sorted_insert<A>(s: Seq<A>, x: A, leq: spec_fn(A, A) -> bool)
    requires
        total_le(leq),
        sorted_le(s, leq),
    ensures
        sorted_le(sorted_insert(s, x, leq), leq),
        sorted_insert(s, x, leq).to_multiset() == s.to_multiset().insert(x),
        sorted_insert(s, x, leq).len() == s.len() + 1,
    decreases s.len(),
{
    broadcast use vstd::seq_lib::group_to_multiset_ensures;

    let r = sorted_insert(s, x, leq);
    if s.len() == 0 {
        assert(seq![x] =~= Seq::<A>::empty().push(x));
        assert(r.to_multiset() =~= s.to_multiset().insert(x));
    } else if leq(x, s[0]) {
        assert forall|i: int, j: int| 0 <= i < j < r.len() implies leq(r[i], r[j]) by {
            if i == 0 {
                assert(r[j] == s[j - 1]);
                if j - 1 > 0 {
                    assert(leq(s[0], s[j - 1]));
                }
            } else {
                assert(r[i] == s[i - 1] && r[j] == s[j - 1]);
            }
        }
        lemma_multiset_commutative(seq![x], s);
        assert(seq![x] =~= Seq::<A>::empty().push(x));
        assert(r.to_multiset() =~= s.to_multiset().insert(x));
    } else {
        let t = s.drop_first();
        assert forall|i: int, j: int| 0 <= i < j < t.len() implies leq(t[i], t[j]) by {
            assert(t[i] == s[i + 1] && t[j] == s[j + 1]);
        }
        lemma_sorted_insert(t, x, leq);
        let rt = sorted_insert(t, x, leq);
        // s[0] is below x and below every element of t, hence below all of rt.
        assert(leq(s[0], x));
        assert forall|j: int| #![trigger r[j]] 1 <= j < r.len() implies leq(r[0], r[j]) by {
            assert(r[j] == rt[j - 1]);
            assert(rt.contains(rt[j - 1]));
            assert(rt.to_multiset().count(rt[j - 1]) > 0);
            if rt[j - 1] != x {
                assert(t.to_multiset().count(rt[j - 1]) > 0);
                assert(t.contains(rt[j - 1]));
                let w = choose|w: int| 0 <= w < t.len() && t[w] == rt[j - 1];
                assert(t[w] == s[w + 1]);
                assert(leq(s[0], s[w + 1]));
            }
        }
        assert forall|i: int, j: int| 0 <= i < j < r.len() implies leq(r[i], r[j]) by {
            if i >= 1 {
                assert(r[i] == rt[i - 1] && r[j] == rt[j - 1]);
                assert(leq(rt[i - 1], rt[j - 1]));
            }
        }
        // Multiset: r == seq![s[0]] + rt.
        lemma_multiset_commutative(seq![s[0]], rt);
        lemma_multiset_commutative(seq![s[0]], t);
        assert(seq![s[0]] + t =~= s);
        assert(seq![s[0]] =~= Seq::<A>::empty().push(s[0]));
        assert(r.to_multiset() =~= s.to_multiset().insert(x)) by {
            assert(r.to_multiset() == seq![s[0]].to_multiset().add(rt.to_multiset()));
            assert(rt.to_multiset() == t.to_multiset().insert(x));
            assert(s.to_multiset() == seq![s[0]].to_multiset().add(t.to_multiset()));
        }
    }
}

pub proof fn lemma_sort_by_insertion<A>(s: Seq<A>, leq: spec_fn(A, A) -> bool)
    requires
        total_le(leq),
    ensures
        sorted_le(sort_by_insertion(s, leq), leq),
        sort_by_insertion(s, leq).to_multiset() == s.to_multiset(),
        sort_by_insertion(s, leq).len() == s.len(),
    decreases s.len(),
{
    broadcast use vstd::seq_lib::group_to_multiset_ensures;

    if s.len() == 0 {
        assert(sort_by_insertion(s, leq).to_multiset() =~= s.to_multiset());
    } else {
        let t = s.drop_last();
        lemma_sort_by_insertion(t, leq);
        lemma_sorted_insert(sort_by_insertion(t, leq), s.last(), leq);
        assert(t.push(s.last()) =~= s);
        assert(s.to_multiset() == t.to_multiset().insert(s.last()));
    }
}

pub proof fn lemma_sorted_unique<A>(s1: Seq<A>, s2: Seq<A>, leq: spec_fn(A, A) -> bool)
    requires
        total_le(leq),
        sorted_le(s1, leq),
        sorted_le(s2, leq),
        s1.to_multiset() == s2.to_multiset(),
    ensures
        s1 == s2,
    decreases s1.len(),
{
    broadcast use vstd::seq_lib::group_to_multiset_ensures;

    if s1.len() == 0 {
        assert(s2.to_multiset().len() == 0);
        assert(s1 =~= s2);
    } else {
        assert(s1.to_multiset().len() == s1.len());
        assert(s2.to_multiset().len() == s2.len());
        assert(s2.len() == s1.len());
        // The heads are equal: each is a least element of the same multiset.
        assert(s1.to_multiset().count(s1[0]) > 0);
        assert(s2.contains(s1[0]));
        assert(s2.to_multiset().count(s2[0]) > 0);
        assert(s1.contains(s2[0]));
        let k1 = choose|k: int| 0 <= k < s2.len() && s2[k] == s1[0];
        let k2 = choose|k: int| 0 <= k < s1.len() && s1[k] == s2[0];
        assert(leq(s2[0], s1[0]));
        assert(leq(s1[0], s2[0]));
        assert(s1[0] == s2[0]);
        let t1 = s1.drop_first();
        let t2 = s2.drop_first();
        assert(s1.remove(0) =~= t1);
        assert(s2.remove(0) =~= t2);
        assert(t1.to_multiset() == s1.to_multiset().remove(s1[0]));
        assert(t2.to_multiset() == s2.to_multiset().remove(s2[0]));
        assert forall|i: int, j: int| 0 <= i < j < t1.len() implies leq(t1[i], t1[j]) by {
            assert(t1[i] == s1[i + 1] && t1[j] == s1[j + 1]);
        }
        assert forall|i: int, j: int| 0 <= i < j < t2.len() implies leq(t2[i], t2[j]) by {
            assert(t2[i] == s2[i + 1] && t2[j] == s2[j + 1]);
        }
        lemma_sorted_unique(t1, t2, leq);
        assert forall|i: int| 0 <= i < s1.len() implies s1[i] == s2[i] by {
            if i > 0 {
                assert(s1[i] == t1[i - 1]);
                assert(s2[i] == t2[i - 1]);
            }
        }
        assert(s1 =~= s2);
    }
}

/// Sorting an already sorted sequence leaves it unchanged.
pub proof fn lemma_sort_of_sorted<A>(s: Seq<A>, leq: spec_fn(A, A) -> bool)
    requires
        total_le(leq),
        sorted_le(s, leq),
    ensures
        sort_by_insertion(s, leq) == s,
{
    lemma_sort_by_insertion(s, leq);
    lemma_sorted_unique(sort_by_insertion(s, leq), s, leq);
}

#[verifier::rlimit(100)]
pub proof fn lemma_coalesce_ensures<A>(
    s: Seq<A>,
    leq: spec_fn(A, A) -> bool,
    eqv: spec_fn(A, A) -> bool,
)
    requires
        total_le(leq),
        equiv_rel(eqv),
        convex_classes(leq, eqv),
        sorted_le(s, leq),
    ensures
        is_class_reduction(s, coalesce_keep_last(s, eqv), leq, eqv),
    decreases s.len(),
{
    let r = coalesce_keep_last(s, eqv);
    if s.len() == 0 {
        assert forall|c: A| s.contains(c) implies exists|k: int|
            0 <= k < r.len() && eqv(#[trigger] r[k], c) by {
            assert(false);
        }
    } else {
        let t = s.drop_last();
        let x = s.last();
        assert forall|i: int, j: int| 0 <= i < j < t.len() implies leq(t[i], t[j]) by {
            assert(t[i] == s[i] && t[j] == s[j]);
        }
        lemma_coalesce_ensures(t, leq, eqv);
        let rt = coalesce_keep_last(t, eqv);
        // Every element of t is an element of s and lies below x.
        assert forall|y: A| t.contains(y) implies s.contains(y) && leq(y, x) by {
            let w = choose|w: int| 0 <= w < t.len() && t[w] == y;
            assert(s[w] == y);
            if w < s.len() - 1 {
                assert(leq(s[w], s[(s.len() - 1) as int]));
            } else {
                assert(leq(x, x));
            }
        }
        assert(s.contains(x)) by {
            assert(s[s.len() - 1] == x);
        }
        assert forall|c: A| s.contains(c) implies t.contains(c) || c == x by {
            let w = choose|w: int| 0 <= w < s.len() && s[w] == c;
            if w < s.len() - 1 {
                assert(t[w] == c);
            }
        }
        // Every element of s lies below the last element x.
        assert forall|c: A| s.contains(c) implies leq(c, x) by {
            if t.contains(c) {
            } else {
                assert(leq(x, x));
            }
        }
        // No earlier representative is equivalent to x.
        assert forall|i: int| 0 <= i < rt.len() - 1 implies !eqv(rt[i], x) by {
            if eqv(rt[i], x) {
                assert(t.contains(rt[i]));
                assert(t.contains(rt[(rt.len() - 1) as int]));
                assert(leq(rt[i], rt[(rt.len() - 1) as int]));
                assert(leq(rt[(rt.len() - 1) as int], x));
                assert(eqv(rt[i], rt[(rt.len() - 1) as int]));
                assert(false);
            }
        }
        if rt.len() > 0 && eqv(rt.last(), x) {
            let m = rt.len() - 1;
            assert(r == rt.update(m, x));
            assert(r.len() == rt.len());
            assert(r[m as int] == x);
            assert forall|i: int| 0 <= i < m implies r[i] == rt[i] by {}
            assert forall|i: int, j: int| 0 <= i < j < r.len() implies leq(r[i], r[j]) by {
                if j < m {
                    assert(leq(rt[i], rt[j]));
                } else {
                    assert(t.contains(rt[i]));
                }
            }
            assert forall|i: int, j: int| 0 <= i < j < r.len() implies !eqv(r[i], r[j]) by {
                if j < m {
                    assert(!eqv(rt[i], rt[j]));
                } else {
                    assert(!eqv(rt[i], x));
                }
            }
            assert forall|k: int| 0 <= k < r.len() implies s.contains(r[k]) by {
                if k < m {
                    assert(t.contains(rt[k]));
                }
            }
            assert forall|c: A| s.contains(c) implies exists|k: int|
                0 <= k < r.len() && eqv(#[trigger] r[k], c) by {
                if c == x {
                    assert(eqv(r[m as int], c));
                } else {
                    assert(t.contains(c));
                    let k = choose|k: int| 0 <= k < rt.len() && eqv(#[trigger] rt[k], c);
                    if k < m {
                        assert(eqv(r[k], c));
                    } else {
                        assert(eqv(rt[m as int], c));
                        assert(eqv(rt[m as int], x));
                        assert(eqv(x, c));
                        assert(eqv(r[m as int], c));
                    }
                }
            }
            assert forall|c: A, k: int|
                #![trigger eqv(r[k], c)]
                s.contains(c) && 0 <= k < r.len() && eqv(r[k], c) implies leq(c, r[k]) by {
                if k == m {
                    assert(leq(c, x));
                } else {
                    assert(!eqv(rt[k], x));
                    assert(c != x);
                    assert(t.contains(c));
                    assert(leq(c, rt[k]));
                }
            }
        } else {
            let m = rt.len();
            assert(r == rt.push(x));
            assert(r[m as int] == x);
            assert forall|i: int| 0 <= i < m implies r[i] == rt[i] by {}
            // x is in no earlier class: the guard covers the last, convexity the rest.
            assert forall|i: int| 0 <= i < m implies !eqv(rt[i], x) by {
                if i < m - 1 {
                } else {
                    if rt.len() > 0 {
                        assert(!eqv(rt.last(), x));
                    }
                }
            }
            assert forall|i: int, j: int| 0 <= i < j < r.len() implies leq(r[i], r[j]) by {
                if j < m {
                    assert(leq(rt[i], rt[j]));
                } else {
                    assert(t.contains(rt[i]));
                }
            }
            assert forall|i: int, j: int| 0 <= i < j < r.len() implies !eqv(r[i], r[j]) by {
                if j < m {
                    assert(!eqv(rt[i], rt[j]));
                } else {
                    assert(!eqv(rt[i], x));
                }
            }
            assert forall|k: int| 0 <= k < r.len() implies s.contains(r[k]) by {
                if k < m {
                    assert(t.contains(rt[k]));
                }
            }
            assert forall|c: A| s.contains(c) implies exists|k: int|
                0 <= k < r.len() && eqv(#[trigger] r[k], c) by {
                if c == x {
                    assert(eqv(r[m as int], c));
                } else {
                    assert(t.contains(c));
                    let k = choose|k: int| 0 <= k < rt.len() && eqv(#[trigger] rt[k], c);
                    assert(eqv(r[k], c));
                }
            }
            assert forall|c: A, k: int|
                #![trigger eqv(r[k], c)]
                s.contains(c) && 0 <= k < r.len() && eqv(r[k], c) implies leq(c, r[k]) by {
                if k == m {
                    assert(leq(c, x));
                } else {
                    assert(!eqv(rt[k], x));
                    assert(c != x);
                    assert(t.contains(c));
                    assert(leq(c, rt[k]));
                }
            }
        }
    }
}

/// Coalescing a sequence whose elements all lie in distinct classes is the identity.
pub proof fn lemma_coalesce_of_distinct<A>(s: Seq<A>, eqv: spec_fn(A, A) -> bool)
    requires
        distinct_classes(s, eqv),
    ensures
        coalesce_keep_last(s, eqv) == s,
    decreases s.len(),
{
    if s.len() == 0 {
        assert(coalesce_keep_last(s, eqv) =~= s);
    } else {
        let t = s.drop_last();
        assert forall|i: int, j: int| 0 <= i < j < t.len() implies !eqv(t[i], t[j]) by {
            assert(t[i] == s[i] && t[j] == s[j]);
        }
        lemma_coalesce_of_distinct(t, eqv);
        if t.len() > 0 {
            assert(t.last() == s[s.len() - 2]);
            assert(!eqv(s[s.len() - 2], s[s.len() - 1]));
        }
        assert(t.push(s.last()) =~= s);
    }
}

/// Reduction depends only on the multiset of the input: any reordering
/// or re-batching with the same members reduces to the same sequence.
pub proof fn lemma_reduce_by_same_multiset<A>(
    s1: Seq<A>,
    s2: Seq<A>,
    leq: spec_fn(A, A) -> bool,
    eqv: spec_fn(A, A) -> bool,
)
    requires
        total_le(leq),
        s1.to_multiset() == s2.to_multiset(),
    ensures
        reduce_by(s1, leq, eqv) == reduce_by(s2, leq, eqv),
{
    lemma_sort_by_insertion(s1, leq);
    lemma_sort_by_insertion(s2, leq);
    lemma_sorted_unique(sort_by_insertion(s1, leq), sort_by_insertion(s2, leq), leq);
}

/// Reducing a second time changes nothing.
pub proof fn lemma_reduce_by_idempotent<A>(
    s: Seq<A>,
    leq: spec_fn(A, A) -> bool,
    eqv: spec_fn(A, A) -> bool,
)
    requires
        total_le(leq),
        equiv_rel(eqv),
        convex_classes(leq, eqv),
    ensures
        reduce_by(reduce_by(s, leq, eqv), leq, eqv) == reduce_by(s, leq, eqv),
{
    lemma_sort_by_insertion(s, leq);
    lemma_coalesce_ensures(sort_by_insertion(s, leq), leq, eqv);
    let r = reduce_by(s, leq, eqv);
    lemma_sort_of_sorted(r, leq);
    lemma_coalesce_of_distinct(r, eqv);
}

/// The reduction satisfies the class-reduction contract with respect to its input.
pub proof fn lemma_reduce_by_ensures<A>(
    s: Seq<A>,
    leq: spec_fn(A, A) -> bool,
    eqv: spec_fn(A, A) -> bool,
)
    requires
        total_le(leq),
        equiv_rel(eqv),
        convex_classes(leq, eqv),
    ensures
        is_class_reduction(s, reduce_by(s, leq, eqv), leq, eqv),
{
    broadcast use vstd::seq_lib::group_to_multiset_ensures;

    lemma_sort_by_insertion(s, leq);
    let ss = sort_by_insertion(s, leq);
    lemma_coalesce_ensures(ss, leq, eqv);
    // Membership transfers between s and its sorted permutation.
    assert forall|y: A| ss.contains(y) implies s.contains(y) by {
        assert(ss.to_multiset().count(y) > 0);
    }
    assert forall|y: A| s.contains(y) implies ss.contains(y) by {
        assert(s.to_multiset().count(y) > 0);
    }
}

} // verus!
