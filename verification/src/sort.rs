//! A stable insertion sort over a vector, specified at the level of the
//! element views so that rendering contracts can speak of the sorted order.

use vstd::prelude::*;

verus! {

/// An order on element views, with an executable comparison.
pub trait SortLe: Sized + View {
    spec fn vle(a: Self::V, b: Self::V) -> bool;

    fn le(&self, other: &Self) -> (r: bool)
        ensures
            r == Self::vle(self@, other@),
    ;
}

/// `x` inserted into `s` after every element at or below it, so that the
/// insertion is stable with respect to equal elements.
pub open spec fn insert_le<T: SortLe>(x: T::V, s: Seq<T::V>) -> Seq<T::V>
    decreases s.len(),
{
    if s.len() == 0 {
        seq![x]
    } else if T::vle(s.last(), x) {
        s.push(x)
    } else {
        insert_le::<T>(x, s.drop_last()).push(s.last())
    }
}

/// The stable insertion sort of `s` under `T::vle`.
pub open spec fn sort_views<T: SortLe>(s: Seq<T::V>) -> Seq<T::V>
    decreases s.len(),
{
    if s.len() == 0 {
        Seq::empty()
    } else {
        insert_le::<T>(s.last(), sort_views::<T>(s.drop_last()))
    }
}

pub proof fn lemma_insert_le_len<T: SortLe>(x: T::V, s: Seq<T::V>)
    ensures
        insert_le::<T>(x, s).len() == s.len() + 1,
    decreases s.len(),
{
    if s.len() > 0 && !T::vle(s.last(), x) {
        lemma_insert_le_len::<T>(x, s.drop_last());
    }
}

pub proof fn lemma_sort_views_len<T: SortLe>(s: Seq<T::V>)
    ensures
        sort_views::<T>(s).len() == s.len(),
    decreases s.len(),
{
    if s.len() > 0 {
        lemma_sort_views_len::<T>(s.drop_last());
        lemma_insert_le_len::<T>(s.last(), sort_views::<T>(s.drop_last()));
    }
}

/// Relies on the slice method swap: exchanges the elements at `i` and `j`.
#[verifier::external_body]
fn vec_swap<T>(v: &mut Vec<T>, i: usize, j: usize)
    requires
        i < old(v)@.len(),
        j < old(v)@.len(),
    ensures
        final(v)@ == old(v)@.update(i as int, old(v)@[j as int]).update(j as int, old(v)@[i as int]),
{
    v.swap(i, j);
}

/// Sorts `v` in place, stably, by the order that `T` declares.
pub fn stable_sort<T: SortLe>(v: &mut Vec<T>)
    ensures
        final(v)@.len() == old(v)@.len(),
        crate::text::seq_views(final(v)@) == sort_views::<T>(crate::text::seq_views(old(v)@)),
{
    let n = v.len();
    if n == 0 {
        proof {
            assert(crate::text::seq_views(v@) =~= Seq::<T::V>::empty());
            assert(sort_views::<T>(crate::text::seq_views(old(v)@)) =~= Seq::<T::V>::empty());
        }
        return ;
    }
    let mut i: usize = 1;
    proof {
        assert(v@.subrange(0, 1) =~= seq![v@[0]]);
        assert(crate::text::seq_views(v@.subrange(0, 1)) =~= seq![v@[0]@]);
        assert(old(v)@.subrange(0, 1) =~= seq![old(v)@[0]]);
        assert(crate::text::seq_views(old(v)@.subrange(0, 1)) =~= seq![old(v)@[0]@]);
        let s1 = crate::text::seq_views(old(v)@.subrange(0, 1));
        assert(s1.len() == 1);
        assert(s1.drop_last() =~= Seq::<T::V>::empty());
        assert(sort_views::<T>(s1.drop_last()) == Seq::<T::V>::empty());
        assert(s1.last() == old(v)@[0]@);
        assert(insert_le::<T>(s1.last(), Seq::<T::V>::empty()) == seq![old(v)@[0]@]);
        assert(old(v)@[0] == v@[0]);
        assert(sort_views::<T>(crate::text::seq_views(old(v)@.subrange(0, 1))) =~= seq![v@[0]@]);
    }
    while i < n
        invariant
            1 <= i <= n,
            n == v@.len(),
            n == old(v)@.len(),
            v@.skip(i as int) == old(v)@.skip(i as int),
            crate::text::seq_views(v@.subrange(0, i as int)) == sort_views::<T>(
                crate::text::seq_views(old(v)@.subrange(0, i as int)),
            ),
        decreases n - i,
    {
        let ghost pre = v@;
        let ghost s_sorted = crate::text::seq_views(v@.subrange(0, i as int));
        let ghost x = v@[i as int]@;
        proof {
            lemma_sort_views_len::<T>(crate::text::seq_views(old(v)@.subrange(0, i as int)));
            assert(s_sorted.len() == i);
            assert(s_sorted.subrange(i as int, i as int) =~= Seq::<T::V>::empty());
            assert(insert_le::<T>(x, s_sorted) =~= insert_le::<T>(
                x,
                s_sorted.subrange(0, i as int),
            ) + s_sorted.subrange(i as int, i as int)) by {
                assert(s_sorted.subrange(0, i as int) =~= s_sorted);
            }
        }
        let mut j: usize = i;
        loop
            invariant_except_break
                0 <= j <= i < n,
                n == v@.len(),
                s_sorted.len() == i,
                v@.skip(i + 1 as int) == pre.skip(i + 1 as int),
                forall|k: int| 0 <= k < j ==> v@[k] == pre[k],
                crate::text::seq_views(v@.subrange(0, j as int)) == s_sorted.subrange(0, j as int),
                v@[j as int]@ == x,
                crate::text::seq_views(v@.subrange(j + 1 as int, i + 1 as int)) == s_sorted.subrange(
                    j as int,
                    i as int,
                ),
                insert_le::<T>(x, s_sorted) == insert_le::<T>(x, s_sorted.subrange(0, j as int))
                    + s_sorted.subrange(j as int, i as int),
            ensures
                n == v@.len(),
                v@.skip(i + 1 as int) == pre.skip(i + 1 as int),
                crate::text::seq_views(v@.subrange(0, i + 1 as int)) == insert_le::<T>(x, s_sorted),
            decreases j,
        {
            let at_start = j == 0;
            let stop = if at_start {
                true
            } else {
                let prev = &v[j - 1];
                prev.le(&v[j])
            };
            if stop {
                proof {
                    let sj = s_sorted.subrange(0, j as int);
                    if j == 0 {
                        assert(sj.len() == 0);
                        assert(insert_le::<T>(x, sj) == seq![x]);
                    } else {
                        assert(v@[j - 1 as int]@ == crate::text::seq_views(
                            v@.subrange(0, j as int),
                        )[j - 1]);
                        assert(v@[j - 1 as int]@ == s_sorted[j - 1]);
                        assert(T::vle(s_sorted[j - 1], x));
                        assert(sj.last() == s_sorted[j - 1]);
                        assert(insert_le::<T>(x, sj) == sj.push(x));
                    }
                    assert(crate::text::seq_views(v@.subrange(0, i + 1 as int)) =~= insert_le::<T>(
                        x,
                        s_sorted,
                    )) by {
                        assert(v@.subrange(0, i + 1 as int) =~= v@.subrange(0, j as int) + seq![
                            v@[j as int],
                        ] + v@.subrange(j + 1 as int, i + 1 as int));
                        assert(crate::text::seq_views(
                            v@.subrange(0, j as int) + seq![v@[j as int]] + v@.subrange(
                                j + 1 as int,
                                i + 1 as int,
                            ),
                        ) =~= crate::text::seq_views(v@.subrange(0, j as int)) + seq![x]
                            + crate::text::seq_views(v@.subrange(j + 1 as int, i + 1 as int)));
                        if j == 0 {
                            assert(insert_le::<T>(x, s_sorted) =~= seq![x] + s_sorted.subrange(
                                0,
                                i as int,
                            ));
                            assert(s_sorted.subrange(0, i as int) =~= s_sorted.subrange(
                                j as int,
                                i as int,
                            ));
                            assert(crate::text::seq_views(v@.subrange(0, j as int))
                                =~= Seq::<T::V>::empty());
                        } else {
                            assert(insert_le::<T>(x, s_sorted) =~= s_sorted.subrange(0, j as int)
                                + seq![x] + s_sorted.subrange(j as int, i as int));
                        }
                    }
                }
                break ;
            }
            proof {
                assert(v@[j - 1 as int]@ == crate::text::seq_views(v@.subrange(0, j as int))[j - 1]);
                assert(v@[j - 1 as int]@ == s_sorted[j - 1]);
                assert(!T::vle(s_sorted[j - 1], x));
                let sj = s_sorted.subrange(0, j as int);
                assert(sj.last() == s_sorted[j - 1]);
                assert(insert_le::<T>(x, sj) == insert_le::<T>(x, sj.drop_last()).push(
                    s_sorted[j - 1],
                ));
                assert(sj.drop_last() =~= s_sorted.subrange(0, j - 1 as int));
                assert(insert_le::<T>(x, s_sorted.subrange(0, j as int)) + s_sorted.subrange(
                    j as int,
                    i as int,
                ) =~= insert_le::<T>(x, s_sorted.subrange(0, j - 1 as int)) + s_sorted.subrange(
                    j - 1 as int,
                    i as int,
                ));
            }
            let ghost before = v@;
            vec_swap(v, j - 1, j);
            proof {
                assert(crate::text::seq_views(v@.subrange(0, j - 1 as int)) =~= s_sorted.subrange(
                    0,
                    j - 1 as int,
                )) by {
                    assert(v@.subrange(0, j - 1 as int) =~= before.subrange(0, j - 1 as int));
                }
                assert(v@[j - 1 as int]@ == x);
                assert(crate::text::seq_views(v@.subrange(j as int, i + 1 as int)) =~= s_sorted.subrange(
                    j - 1 as int,
                    i as int,
                )) by {
                    assert(v@.subrange(j as int, i + 1 as int) =~= seq![before[j - 1 as int]]
                        + before.subrange(j + 1 as int, i + 1 as int));
                    assert(crate::text::seq_views(
                        seq![before[j - 1 as int]] + before.subrange(j + 1 as int, i + 1 as int),
                    ) =~= seq![before[j - 1 as int]@] + crate::text::seq_views(
                        before.subrange(j + 1 as int, i + 1 as int),
                    ));
                    assert(s_sorted.subrange(j - 1 as int, i as int) =~= seq![s_sorted[j - 1]]
                        + s_sorted.subrange(j as int, i as int));
                }
                assert(v@.skip(i + 1 as int) =~= before.skip(i + 1 as int));
            }
            j = j - 1;
        }
        proof {
            // the freshly sorted prefix is the sort of one more input element
            let prev_in = crate::text::seq_views(old(v)@.subrange(0, i as int));
            let next_in = crate::text::seq_views(old(v)@.subrange(0, i + 1 as int));
            assert(next_in.drop_last() =~= prev_in) by {
                assert(old(v)@.subrange(0, i + 1 as int).drop_last() =~= old(v)@.subrange(
                    0,
                    i as int,
                ));
            }
            assert(next_in.last() == old(v)@[i as int]@);
            assert(x == old(v)@[i as int]@) by {
                assert(pre.skip(i as int) == old(v)@.skip(i as int));
                assert(pre.skip(i as int)[0] == pre[i as int]);
            }
            assert(sort_views::<T>(next_in) == insert_le::<T>(x, s_sorted));
            assert(v@.skip(i + 1 as int) =~= old(v)@.skip(i + 1 as int)) by {
                assert(pre.skip(i as int) == old(v)@.skip(i as int));
                assert forall|k: int| 0 <= k < v@.skip(i + 1 as int).len() implies #[trigger] v@.skip(
                    i + 1 as int,
                )[k] == old(v)@.skip(i + 1 as int)[k] by {
                    assert(v@.skip(i + 1 as int)[k] == pre.skip(i + 1 as int)[k]);
                    assert(pre.skip(i + 1 as int)[k] == pre.skip(i as int)[k + 1]);
                    assert(old(v)@.skip(i + 1 as int)[k] == old(v)@.skip(i as int)[k + 1]);
                }
            }
        }
        i = i + 1;
    }
    proof {
        assert(v@.subrange(0, n as int) =~= v@);
        assert(old(v)@.subrange(0, n as int) =~= old(v)@);
    }
}

/// The order that `T` declares, as a binary relation on views.
pub open spec fn vle_fn<T: SortLe>() -> spec_fn(T::V, T::V) -> bool {
    |a: T::V, b: T::V| T::vle(a, b)
}

pub proof fn lemma_insert_le_multiset<T: SortLe>(x: T::V, s: Seq<T::V>)
    ensures
        insert_le::<T>(x, s).to_multiset() == s.to_multiset().insert(x),
    decreases s.len(),
{
    broadcast use vstd::seq_lib::group_to_multiset_ensures;

    if s.len() == 0 {
        assert(seq![x] =~= Seq::<T::V>::empty().push(x));
        assert(insert_le::<T>(x, s).to_multiset() =~= s.to_multiset().insert(x));
    } else if T::vle(s.last(), x) {
        assert(insert_le::<T>(x, s).to_multiset() =~= s.to_multiset().insert(x));
    } else {
        lemma_insert_le_multiset::<T>(x, s.drop_last());
        assert(s =~= s.drop_last().push(s.last()));
        assert(s.to_multiset() =~= s.drop_last().to_multiset().insert(s.last()));
        assert(insert_le::<T>(x, s).to_multiset() =~= s.drop_last().to_multiset().insert(x).insert(
            s.last(),
        ));
        assert(s.drop_last().to_multiset().insert(x).insert(s.last())
            =~= s.drop_last().to_multiset().insert(s.last()).insert(x));
        assert(insert_le::<T>(x, s).to_multiset() =~= s.to_multiset().insert(x));
    }
}

pub proof fn lemma_sort_views_multiset<T: SortLe>(s: Seq<T::V>)
    ensures
        sort_views::<T>(s).to_multiset() == s.to_multiset(),
    decreases s.len(),
{
    broadcast use vstd::seq_lib::group_to_multiset_ensures;

    if s.len() > 0 {
        lemma_sort_views_multiset::<T>(s.drop_last());
        lemma_insert_le_multiset::<T>(s.last(), sort_views::<T>(s.drop_last()));
        assert(s =~= s.drop_last().push(s.last()));
        assert(s.to_multiset() =~= s.drop_last().to_multiset().insert(s.last()));
        assert(sort_views::<T>(s).to_multiset() =~= s.to_multiset());
    }
}

pub proof fn lemma_insert_le_sorted<T: SortLe>(x: T::V, s: Seq<T::V>)
    requires
        vstd::relations::sorted_by(s, vle_fn::<T>()),
        forall|a: T::V, b: T::V| #[trigger] T::vle(a, b) || #[trigger] T::vle(b, a),
        forall|a: T::V, b: T::V, c: T::V|
            #[trigger] T::vle(a, b) && #[trigger] T::vle(b, c) ==> T::vle(a, c),
    ensures
        vstd::relations::sorted_by(insert_le::<T>(x, s), vle_fn::<T>()),
    decreases s.len(),
{
    broadcast use vstd::seq_lib::group_to_multiset_ensures;

    let leq = vle_fn::<T>();
    let r = insert_le::<T>(x, s);
    if s.len() == 0 {
        assert(vstd::relations::sorted_by(r, leq));
    } else if T::vle(s.last(), x) {
        assert forall|i: int, j: int| 0 <= i < j < r.len() implies #[trigger] leq(r[i], r[j]) by {
            if j < s.len() {
                assert(leq(s[i], s[j]));
            } else {
                assert(r[j] == x);
                if i == s.len() - 1 {
                    assert(T::vle(s.last(), x));
                } else {
                    assert(leq(s[i], s[s.len() - 1]));
                    assert(T::vle(s[i], s.last()));
                    assert(T::vle(s.last(), x));
                    assert(T::vle(s[i], x));
                }
            }
        }
    } else {
        assert(vstd::relations::sorted_by(s.drop_last(), leq)) by {
            assert forall|i: int, j: int|
                0 <= i < j < s.drop_last().len() implies #[trigger] leq(
                s.drop_last()[i],
                s.drop_last()[j],
            ) by {
                assert(leq(s[i], s[j]));
            }
        }
        lemma_insert_le_sorted::<T>(x, s.drop_last());
        lemma_insert_le_multiset::<T>(x, s.drop_last());
        let inner = insert_le::<T>(x, s.drop_last());
        assert(T::vle(x, s.last()));
        assert forall|e: T::V| inner.contains(e) implies T::vle(e, s.last()) by {
            assert(inner.to_multiset().count(e) > 0);
            assert(s.drop_last().to_multiset().insert(x).count(e) > 0);
            if e == x {
                assert(T::vle(x, s.last()));
            } else {
                assert(s.drop_last().to_multiset().count(e) > 0);
                assert(s.drop_last().contains(e));
                let i = choose|i: int| 0 <= i < s.drop_last().len() && s.drop_last()[i] == e;
                if i == s.len() - 2 {
                    assert(leq(s[i], s[s.len() - 1]));
                } else {
                    assert(leq(s[i], s[s.len() - 1]));
                }
                assert(T::vle(e, s.last()));
            }
        }
        assert forall|i: int, j: int| 0 <= i < j < r.len() implies #[trigger] leq(r[i], r[j]) by {
            if j < inner.len() {
                assert(leq(inner[i], inner[j]));
            } else {
                assert(r[j] == s.last());
                assert(inner.contains(inner[i]));
                assert(r[i] == inner[i]);
            }
        }
    }
}

pub proof fn lemma_sort_views_sorted<T: SortLe>(s: Seq<T::V>)
    requires
        forall|a: T::V, b: T::V| #[trigger] T::vle(a, b) || #[trigger] T::vle(b, a),
        forall|a: T::V, b: T::V, c: T::V|
            #[trigger] T::vle(a, b) && #[trigger] T::vle(b, c) ==> T::vle(a, c),
    ensures
        vstd::relations::sorted_by(sort_views::<T>(s), vle_fn::<T>()),
    decreases s.len(),
{
    if s.len() == 0 {
        assert(vstd::relations::sorted_by(sort_views::<T>(s), vle_fn::<T>()));
    } else {
        lemma_sort_views_sorted::<T>(s.drop_last());
        lemma_insert_le_sorted::<T>(s.last(), sort_views::<T>(s.drop_last()));
    }
}

/// Two sequences sorted by the same order, holding the same elements, are
/// equal, provided no two distinct elements of them tie in the order.
pub proof fn lemma_sorted_unique_on<V>(x: Seq<V>, y: Seq<V>, leq: spec_fn(V, V) -> bool)
    requires
        vstd::relations::sorted_by(x, leq),
        vstd::relations::sorted_by(y, leq),
        x.to_multiset() == y.to_multiset(),
        forall|a: V, b: V|
            #![trigger leq(a, b), leq(b, a)]
            x.contains(a) && x.contains(b) && leq(a, b) && leq(b, a) ==> a == b,
    ensures
        x == y,
    decreases x.len(),
{
    broadcast use vstd::seq_lib::group_to_multiset_ensures;

    if x.len() == 0 {
        assert(y.to_multiset().len() == 0);
        assert(x =~= y);
    } else {
        assert(y.len() == x.len()) by {
            assert(x.to_multiset().len() == x.len());
            assert(y.to_multiset().len() == y.len());
        }
        assert(y.contains(y[0]));
        assert(x.to_multiset().count(y[0]) > 0);
        assert(x.contains(y[0]));
        let i = choose|i: int| 0 <= i < x.len() && x[i] == y[0];
        assert(x.contains(x[0]));
        assert(y.to_multiset().count(x[0]) > 0);
        assert(y.contains(x[0]));
        let k = choose|k: int| 0 <= k < y.len() && y[k] == x[0];
        if i == 0 || k == 0 {
            assert(x[0] == y[0]);
        } else {
            assert(leq(x[0], x[i]));
            assert(leq(y[0], y[k]));
            assert(leq(x[i], x[0]));
            assert(x[0] == y[0]);
        }
        assert(x.remove(0) =~= x.drop_first());
        assert(y.remove(0) =~= y.drop_first());
        assert(x.drop_first().to_multiset() == x.to_multiset().remove(x[0]));
        assert(y.drop_first().to_multiset() == y.to_multiset().remove(y[0]));
        assert(x.drop_first().to_multiset() == y.drop_first().to_multiset());
        assert(vstd::relations::sorted_by(x.drop_first(), leq)) by {
            assert forall|p: int, q: int|
                0 <= p < q < x.drop_first().len() implies #[trigger] leq(
                x.drop_first()[p],
                x.drop_first()[q],
            ) by {
                assert(leq(x[p + 1], x[q + 1]));
            }
        }
        assert(vstd::relations::sorted_by(y.drop_first(), leq)) by {
            assert forall|p: int, q: int|
                0 <= p < q < y.drop_first().len() implies #[trigger] leq(
                y.drop_first()[p],
                y.drop_first()[q],
            ) by {
                assert(leq(y[p + 1], y[q + 1]));
            }
        }
        assert forall|a: V, b: V|
            #![trigger leq(a, b), leq(b, a)]
            x.drop_first().contains(a) && x.drop_first().contains(b) && leq(a, b) && leq(
            b,
            a,
        ) implies a == b by {
            let p = choose|p: int| 0 <= p < x.drop_first().len() && x.drop_first()[p] == a;
            let q = choose|q: int| 0 <= q < x.drop_first().len() && x.drop_first()[q] == b;
            assert(x[p + 1] == a);
            assert(x[q + 1] == b);
            assert(x.contains(a));
            assert(x.contains(b));
        }
        lemma_sorted_unique_on(x.drop_first(), y.drop_first(), leq);
        assert(x =~= y) by {
            assert forall|p: int| 0 <= p < x.len() implies x[p] == y[p] by {
                if p > 0 {
                    assert(x.drop_first()[p - 1] == y.drop_first()[p - 1]);
                }
            }
        }
    }
}

/// Sorting two permutations of the same elements gives the same sequence,
/// provided no two distinct elements tie in the order.
pub proof fn lemma_sort_views_perm<T: SortLe>(s1: Seq<T::V>, s2: Seq<T::V>)
    requires
        s1.to_multiset() == s2.to_multiset(),
        forall|a: T::V, b: T::V| #[trigger] T::vle(a, b) || #[trigger] T::vle(b, a),
        forall|a: T::V, b: T::V, c: T::V|
            #[trigger] T::vle(a, b) && #[trigger] T::vle(b, c) ==> T::vle(a, c),
        forall|a: T::V, b: T::V|
            #![trigger T::vle(a, b), T::vle(b, a)]
            s1.contains(a) && s1.contains(b) && T::vle(a, b) && T::vle(b, a) ==> a == b,
    ensures
        sort_views::<T>(s1) == sort_views::<T>(s2),
{
    broadcast use vstd::seq_lib::group_to_multiset_ensures;

    lemma_sort_views_sorted::<T>(s1);
    lemma_sort_views_sorted::<T>(s2);
    lemma_sort_views_multiset::<T>(s1);
    lemma_sort_views_multiset::<T>(s2);
    let r1 = sort_views::<T>(s1);
    let r2 = sort_views::<T>(s2);
    assert forall|a: T::V, b: T::V|
        #![trigger T::vle(a, b), T::vle(b, a)]
        r1.contains(a) && r1.contains(b) && T::vle(a, b) && T::vle(b, a) implies a == b by {
        assert(r1.to_multiset().count(a) > 0);
        assert(r1.to_multiset().count(b) > 0);
        assert(s1.contains(a));
        assert(s1.contains(b));
    }
    assert forall|a: T::V, b: T::V|
        #![trigger vle_fn::<T>()(a, b)]
        vle_fn::<T>()(a, b) == T::vle(a, b) by {}
    lemma_sorted_unique_on(r1, r2, vle_fn::<T>());
}

} // verus!
