//! Ranking of scored entries: the entries that have a score, best first,
//! entries of equal score in the order in which they came.

use vstd::prelude::*;

verus! {

/// The keys as mathematical integers.
pub open spec fn key_view(keys: Seq<Option<u128>>) -> Seq<Option<int>> {
    keys.map(|i: int, k: Option<u128>|
        match k {
            Some(v) => Some(v as int),
            None => None,
        })
}

/// Entry `i` comes before entry `j`: a higher key, or an equal key and an
/// earlier position.
pub open spec fn precedes(ks: Seq<Option<int>>, i: int, j: int) -> bool {
    ks[i]->0 > ks[j]->0 || (ks[i]->0 == ks[j]->0 && i < j)
}

/// `order` lists the positions of the entries of `ks` that have a key,
/// each once, best key first and equal keys by position.
pub open spec fn is_ranking(ks: Seq<Option<int>>, order: Seq<int>) -> bool {
    &&& forall|a: int| 0 <= a < order.len() ==> 0 <= #[trigger] order[a] < ks.len() && ks[order[a]] is Some
    &&& forall|i: int| 0 <= i < ks.len() && #[trigger] ks[i] is Some ==> order.contains(i)
    &&& forall|a: int, b: int| 0 <= a < b < order.len() ==> precedes(ks, #[trigger] order[a], #[trigger] order[b])
}

/// `r` lists the labels of the entries of `ks` that have a key, in the order
/// of the ranking.
pub open spec fn ranked<T>(ks: Seq<Option<int>>, labels: Seq<T>, r: Seq<T>) -> bool {
    exists|order: Seq<int>| #[trigger] is_ranking(ks, order) && labelled(labels, order, r)
}

/// `r` holds, position by position, the labels of the positions in `order`.
pub open spec fn labelled<T>(labels: Seq<T>, order: Seq<int>, r: Seq<T>) -> bool {
    r.len() == order.len() && forall|a: int| 0 <= a < r.len() ==> r[a] == labels[#[trigger] order[a]]
}

/// There is exactly one ranking of any list of keys.
pub proof fn lemma_ranking_unique(ks: Seq<Option<int>>, o1: Seq<int>, o2: Seq<int>)
    requires
        is_ranking(ks, o1),
        is_ranking(ks, o2),
    ensures
        o1 == o2,
{
    lemma_sorted_unique(ks, o1, o2);
}

proof fn lemma_sorted_unique(ks: Seq<Option<int>>, o1: Seq<int>, o2: Seq<int>)
    requires
        forall|a: int| 0 <= a < o1.len() ==> 0 <= #[trigger] o1[a] < ks.len() && ks[o1[a]] is Some,
        forall|a: int| 0 <= a < o2.len() ==> 0 <= #[trigger] o2[a] < ks.len() && ks[o2[a]] is Some,
        forall|a: int, b: int| 0 <= a < b < o1.len() ==> precedes(ks, #[trigger] o1[a], #[trigger] o1[b]),
        forall|a: int, b: int| 0 <= a < b < o2.len() ==> precedes(ks, #[trigger] o2[a], #[trigger] o2[b]),
        forall|x: int| o1.contains(x) <==> o2.contains(x),
    ensures
        o1 == o2,
    decreases o1.len(),
{
    if o1.len() == 0 {
        if o2.len() > 0 {
            assert(o2.contains(o2[0]));
        }
        assert(o1 =~= o2);
    } else {
        assert(o1.contains(o1[0]));
        let j = choose|j: int| 0 <= j < o2.len() && o2[j] == o1[0];
        assert(o2.contains(o2[0]));
        let k = choose|k: int| 0 <= k < o1.len() && o1[k] == o2[0];
        if j > 0 {
            assert(precedes(ks, o2[0], o2[j]));
            if k > 0 {
                assert(precedes(ks, o1[0], o1[k]));
            }
        }
        assert(o1[0] == o2[0]);
        let t1 = o1.drop_first();
        let t2 = o2.drop_first();
        assert forall|x: int| t1.contains(x) implies t2.contains(x) by {
            let a = choose|a: int| 0 <= a < t1.len() && t1[a] == x;
            assert(precedes(ks, o1[0], o1[a + 1]));
            assert(o2.contains(x));
            let b = choose|b: int| 0 <= b < o2.len() && o2[b] == x;
            assert(b != 0);
            assert(t2[b - 1] == x);
        }
        assert forall|x: int| t2.contains(x) implies t1.contains(x) by {
            let a = choose|a: int| 0 <= a < t2.len() && t2[a] == x;
            assert(precedes(ks, o2[0], o2[a + 1]));
            assert(o1.contains(x));
            let b = choose|b: int| 0 <= b < o1.len() && o1[b] == x;
            assert(b != 0);
            assert(t1[b - 1] == x);
        }
        assert forall|a: int, b: int| 0 <= a < b < t1.len() implies precedes(ks, #[trigger] t1[a], #[trigger] t1[b]) by {
            assert(precedes(ks, o1[a + 1], o1[b + 1]));
        }
        assert forall|a: int, b: int| 0 <= a < b < t2.len() implies precedes(ks, #[trigger] t2[a], #[trigger] t2[b]) by {
            assert(precedes(ks, o2[a + 1], o2[b + 1]));
        }
        assert forall|a: int| 0 <= a < t1.len() implies 0 <= #[trigger] t1[a] < ks.len() && ks[t1[a]] is Some by {
            assert(o1[a + 1] == t1[a]);
        }
        assert forall|a: int| 0 <= a < t2.len() implies 0 <= #[trigger] t2[a] < ks.len() && ks[t2[a]] is Some by {
            assert(o2[a + 1] == t2[a]);
        }
        lemma_sorted_unique(ks, t1, t2);
        assert(o1 =~= o2) by {
            assert forall|a: int| 0 <= a < o1.len() implies o1[a] == o2[a] by {
                if a > 0 {
                    assert(o1[a] == t1[a - 1]);
                    assert(o2[a] == t2[a - 1]);
                }
            }
        }
    }
}

/// The ranking restricted to the first `n` entries.
pub open spec fn is_ranking_upto(ks: Seq<Option<int>>, order: Seq<int>, n: int) -> bool {
    &&& forall|a: int| 0 <= a < order.len() ==> 0 <= #[trigger] order[a] < n && ks[order[a]] is Some
    &&& forall|i: int| 0 <= i < n && #[trigger] ks[i] is Some ==> order.contains(i)
    &&& forall|a: int, b: int| 0 <= a < b < order.len() ==> precedes(ks, #[trigger] order[a], #[trigger] order[b])
}

/// The positions of the entries that have a key, best key first, equal keys
/// in the order of their positions.
pub fn rank_order(keys: &Vec<Option<u128>>) -> (order: Vec<usize>)
    ensures
        is_ranking(key_view(keys@), order@.map(|a: int, i: usize| i as int)),
{
    let ghost ks = key_view(keys@);
    let mut order: Vec<usize> = Vec::new();
    let mut i: usize = 0;
    while i < keys.len()
        invariant
            ks == key_view(keys@),
            i <= keys@.len(),
            is_ranking_upto(ks, order@.map(|a: int, j: usize| j as int), i as int),
        decreases keys@.len() - i,
    {
        let ghost before = order@.map(|a: int, j: usize| j as int);
        if let Some(k) = keys[i] {
            // Entries of a key at least `k` come first; `i` goes after them.
            let mut p: usize = 0;
            assert forall|a: int| 0 <= a < order@.len() implies #[trigger] order@[a] < i
                && keys@[order@[a] as int] is Some by {
                assert(before[a] == order@[a] as int);
            }
            while p < order.len() && keys[order[p]].unwrap() >= k
                invariant
                    ks == key_view(keys@),
                    i < keys@.len(),
                    keys@[i as int] == Some(k),
                    before == order@.map(|a: int, j: usize| j as int),
                    is_ranking_upto(ks, before, i as int),
                    p <= order@.len(),
                    forall|a: int| 0 <= a < order@.len() ==> #[trigger] order@[a] < i
                        && keys@[order@[a] as int] is Some,
                    forall|a: int| 0 <= a < p ==> ks[#[trigger] before[a]]->0 >= k,
                decreases order@.len() - p,
            {
                assert(before[p as int] == order@[p as int] as int);
                p = p + 1;
            }
            proof {
                if p < order@.len() {
                    assert(before[p as int] == order@[p as int] as int);
                    assert forall|b: int| p <= b < before.len() implies ks[#[trigger] before[b]]->0 < k by {
                        if b > p {
                            assert(precedes(ks, before[p as int], before[b]));
                        }
                    }
                }
            }
            order.insert(p, i);
            let ghost after = order@.map(|a: int, j: usize| j as int);
            proof {
                assert(after =~= before.insert(p as int, i as int));
                assert forall|a: int, b: int| 0 <= a < b < after.len() implies precedes(ks, #[trigger] after[a], #[trigger] after[b]) by {
                    if b < p {
                        assert(precedes(ks, before[a], before[b]));
                    } else if b == p {
                    } else if a < p {
                        assert(after[b] == before[b - 1]);
                    } else if a == p {
                        assert(after[b] == before[b - 1]);
                    } else {
                        assert(precedes(ks, before[a - 1], before[b - 1]));
                    }
                }
                assert forall|j: int| 0 <= j < i + 1 && #[trigger] ks[j] is Some implies after.contains(j) by {
                    if j == i {
                        assert(after[p as int] == j);
                    } else {
                        let a = choose|a: int| 0 <= a < before.len() && before[a] == j;
                        if a < p {
                            assert(after[a] == j);
                        } else {
                            assert(after[a + 1] == j);
                        }
                    }
                }
            }
        } else {
            proof {
                assert forall|j: int| 0 <= j < i + 1 && #[trigger] ks[j] is Some implies before.contains(j) by {
                    assert(j != i);
                }
            }
        }
        i = i + 1;
    }
    order
}

} // verus!
