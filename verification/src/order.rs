//! Stable ordering of records by an integer key.

use vstd::prelude::*;

verus! {

/// Record `a` comes before record `b`: its key is smaller, or the keys are
/// equal and `a` came first in the input.
pub open spec fn orders_before(keys: Seq<int>, a: int, b: int) -> bool {
    keys[a] < keys[b] || (keys[a] == keys[b] && a < b)
}

/// `perm` lists every position of `keys` once, in ascending key order, equal
/// keys keeping their input order: the order in which a stable sort by key
/// puts the records.
pub open spec fn is_stable_order(keys: Seq<int>, perm: Seq<int>) -> bool {
    &&& perm.len() == keys.len()
    &&& forall|i: int| 0 <= i < perm.len() ==> 0 <= #[trigger] perm[i] < keys.len()
    &&& forall|i: int, j: int|
        0 <= i < j < perm.len() ==> orders_before(keys, #[trigger] perm[i], #[trigger] perm[j])
    &&& forall|k: int| 0 <= k < keys.len() ==> #[trigger] perm.contains(k)
}

/// There is only one stable order for given keys: a stable sort is fully
/// determined by the keys.
pub proof fn lemma_stable_order_unique(keys: Seq<int>, p: Seq<int>, q: Seq<int>)
    requires
        is_stable_order(keys, p),
        is_stable_order(keys, q),
    ensures
        p == q,
{
    if p.len() > 0 {
        lemma_prefix_agrees(keys, p, q, p.len() - 1);
    }
    assert(p =~= q);
}

proof fn lemma_prefix_agrees(keys: Seq<int>, p: Seq<int>, q: Seq<int>, i: int)
    requires
        is_stable_order(keys, p),
        is_stable_order(keys, q),
        0 <= i < p.len(),
    ensures
        forall|m: int| 0 <= m <= i ==> p[m] == q[m],
    decreases i,
{
    if i > 0 {
        lemma_prefix_agrees(keys, p, q, i - 1);
    }
    if p[i] != q[i] {
        // positions before i agree, so p[i] sits in q after i and q[i] in p after i
        let x = p[i];
        let y = q[i];
        assert(q.contains(x));
        assert(p.contains(y));
        let j = choose|j: int| 0 <= j < q.len() && q[j] == x;
        let l = choose|l: int| 0 <= l < p.len() && p[l] == y;
        if j < i {
            assert(p[j] == q[j]);
            assert(orders_before(keys, p[j], p[i]));
        }
        if l < i {
            assert(p[l] == q[l]);
            assert(orders_before(keys, q[l], q[i]));
        }
        assert(j != i);
        assert(l != i);
        assert(orders_before(keys, q[i], q[j]));
        assert(orders_before(keys, p[i], p[l]));
        assert(false);
    }
}

/// The positions of `keys` in the order of a stable ascending sort.
pub fn stable_order(keys: &Vec<u64>) -> (perm: Vec<usize>)
    ensures
        is_stable_order(
            keys@.map_values(|k: u64| k as int),
            perm@.map_values(|j: usize| j as int),
        ),
{
    let n = keys.len();
    let ghost ks = keys@.map_values(|k: u64| k as int);
    let mut perm: Vec<usize> = Vec::new();
    let mut i: usize = 0;
    while i < n
        invariant
            n == keys.len(),
            ks == keys@.map_values(|k: u64| k as int),
            i <= n,
            perm.len() == i,
            forall|j: int| 0 <= j < perm.len() ==> #[trigger] perm@[j] < i,
            forall|a: int, b: int|
                0 <= a < b < perm.len() ==> orders_before(
                    ks,
                    #[trigger] perm@[a] as int,
                    #[trigger] perm@[b] as int,
                ),
            forall|k: int| 0 <= k < i ==> #[trigger] perm@.contains(k as usize),
        decreases n - i,
    {
        let key = keys[i];
        let mut pos: usize = 0;
        while pos < perm.len() && keys[perm[pos]] <= key
            invariant
                n == keys.len(),
                i < n,
                key == keys@[i as int],
                pos <= perm.len(),
                forall|j: int| 0 <= j < perm.len() ==> #[trigger] perm@[j] < i,
                forall|j: int| 0 <= j < pos ==> keys@[#[trigger] perm@[j] as int] <= key,
            decreases perm.len() - pos,
        {
            pos = pos + 1;
        }
        let ghost old_perm = perm@;
        assert forall|j: int| pos <= j < old_perm.len() implies key < keys@[#[trigger] old_perm[j] as int] by {
            if j > pos {
                assert(orders_before(ks, old_perm[pos as int] as int, old_perm[j] as int));
            }
        }
        perm.insert(pos, i);
        proof {
            old_perm.insert_ensures(pos as int, i);
            assert forall|a: int, b: int|
                0 <= a < b < perm.len() implies orders_before(
                ks,
                #[trigger] perm@[a] as int,
                #[trigger] perm@[b] as int,
            ) by {
                if b < pos {
                } else if b == pos {
                    assert(keys@[old_perm[a] as int] <= key);
                } else if a < pos {
                    assert(perm@[b] == old_perm[b - 1]);
                    assert(orders_before(ks, old_perm[a] as int, old_perm[b - 1] as int));
                } else if a == pos {
                    assert(perm@[b] == old_perm[b - 1]);
                } else {
                    assert(perm@[a] == old_perm[a - 1]);
                    assert(perm@[b] == old_perm[b - 1]);
                }
            }
            assert forall|k: int| 0 <= k < i + 1 implies #[trigger] perm@.contains(k as usize) by {
                if k == i {
                    assert(perm@[pos as int] == k);
                } else {
                    assert(old_perm.contains(k as usize));
                    let j = choose|j: int| 0 <= j < old_perm.len() && old_perm[j] == k;
                    if j < pos {
                        assert(perm@[j] == k);
                    } else {
                        assert(perm@[j + 1] == k);
                    }
                }
            }
        }
        i = i + 1;
    }
    proof {
        let ps = perm@.map_values(|j: usize| j as int);
        assert forall|k: int| 0 <= k < ks.len() implies #[trigger] ps.contains(k) by {
            assert(perm@.contains(k as usize));
            let j = choose|j: int| 0 <= j < perm.len() && perm@[j] == k;
            assert(ps[j] == k);
        }
    }
    perm
}

} // verus!
