//! Stable ordering of items by an integer key: the positions of the items
//! after a stable sort by key.

use vstd::prelude::*;

verus! {

/// Where an item with key `kv` is inserted into `o` (a list of item indices):
/// after every leading item whose key is at most `kv`.
pub open spec fn scan_pos(keys: Seq<usize>, o: Seq<int>, kv: usize, p: int) -> int
    decreases o.len() - p,
{
    if 0 <= p < o.len() && keys[o[p]] <= kv {
        scan_pos(keys, o, kv, p + 1)
    } else {
        p
    }
}

/// The order of the first `n` items after a stable sort by key: items with
/// smaller keys first, items with equal keys in their original order.
pub open spec fn sort_order(keys: Seq<usize>, n: int) -> Seq<int>
    decreases n,
{
    if n <= 0 {
        seq![]
    } else {
        let o = sort_order(keys, n - 1);
        o.insert(scan_pos(keys, o, keys[n - 1], 0), n - 1)
    }
}

/// The order is sorted by (key, index), strictly.
pub open spec fn lex_sorted(keys: Seq<usize>, o: Seq<int>) -> bool {
    forall|k: int, l: int|
        0 <= k < l < o.len() ==> keys[o[k]] < keys[o[l]] || (keys[o[k]] == keys[o[l]] && o[k]
            < o[l])
}

proof fn lemma_scan_pos_bounds(keys: Seq<usize>, o: Seq<int>, kv: usize, p: int)
    requires
        0 <= p <= o.len(),
    ensures
        p <= scan_pos(keys, o, kv, p) <= o.len(),
        forall|q: int| p <= q < scan_pos(keys, o, kv, p) ==> keys[o[q]] <= kv,
        scan_pos(keys, o, kv, p) < o.len() ==> keys[o[scan_pos(keys, o, kv, p)]] > kv,
    decreases o.len() - p,
{
    if p < o.len() && keys[o[p]] <= kv {
        lemma_scan_pos_bounds(keys, o, kv, p + 1);
    }
}

/// The stable order lists every index once, sorted by (key, index).
pub proof fn lemma_sort_order(keys: Seq<usize>, n: int)
    requires
        0 <= n <= keys.len(),
    ensures
        sort_order(keys, n).len() == n,
        forall|k: int| 0 <= k < n ==> 0 <= #[trigger] sort_order(keys, n)[k] < n,
        forall|i: int| 0 <= i < n ==> sort_order(keys, n).contains(i),
        lex_sorted(keys, sort_order(keys, n)),
    decreases n,
{
    if n > 0 {
        lemma_sort_order(keys, n - 1);
        let o = sort_order(keys, n - 1);
        let kv = keys[n - 1];
        let p = scan_pos(keys, o, kv, 0);
        lemma_scan_pos_bounds(keys, o, kv, 0);
        let o2 = o.insert(p, n - 1);
        assert(o2.len() == n);
        assert forall|k: int| 0 <= k < n implies 0 <= #[trigger] o2[k] < n by {
            if k < p {
                assert(o2[k] == o[k]);
            } else if k > p {
                assert(o2[k] == o[k - 1]);
            }
        }
        assert forall|i: int| 0 <= i < n implies o2.contains(i) by {
            if i == n - 1 {
                assert(o2[p] == i);
            } else {
                assert(o.contains(i));
                let k = choose|k: int| 0 <= k < o.len() && o[k] == i;
                if k < p {
                    assert(o2[k] == i);
                } else {
                    assert(o2[k + 1] == i);
                }
            }
        }
        assert forall|k: int, l: int| 0 <= k < l < o2.len() implies keys[o2[k]] < keys[o2[l]] || (
        keys[o2[k]] == keys[o2[l]] && o2[k] < o2[l]) by {
            if k < p && l < p {
                assert(o2[k] == o[k] && o2[l] == o[l]);
            } else if k < p && l == p {
                assert(o2[k] == o[k]);
                assert(keys[o[k]] <= kv);
                assert(o[k] < n - 1);
            } else if k < p && l > p {
                assert(o2[k] == o[k] && o2[l] == o[l - 1]);
            } else if k == p {
                assert(o2[l] == o[l - 1]);
                assert(keys[o[p]] > kv);
                assert(p < o.len());
                if l - 1 > p {
                    assert(keys[o[p]] < keys[o[l - 1]] || keys[o[p]] == keys[o[l - 1]]);
                }
            } else {
                assert(o2[k] == o[k - 1] && o2[l] == o[l - 1]);
            }
        }
    }
}

/// The positions of the items after a stable sort by key.
pub fn stable_order(keys: &Vec<usize>) -> (o: Vec<usize>)
    ensures
        o@.len() == keys@.len(),
        forall|k: int| 0 <= k < o@.len() ==> o@[k] as int == sort_order(keys@, keys@.len() as int)[k],
{
    let mut o: Vec<usize> = Vec::new();
    let mut i: usize = 0;
    while i < keys.len()
        invariant
            i <= keys@.len(),
            o@.len() == i,
            forall|k: int| 0 <= k < o@.len() ==> o@[k] as int == sort_order(keys@, i as int)[k],
        decreases keys@.len() - i,
    {
        proof {
            lemma_sort_order(keys@, i as int);
        }
        let ghost so = sort_order(keys@, i as int);
        let kv = keys[i];
        let mut p: usize = 0;
        while p < o.len() && keys[o[p]] <= kv
            invariant
                p <= o@.len(),
                o@.len() == i,
                i < keys@.len(),
                kv == keys@[i as int],
                so.len() == i,
                forall|k: int| 0 <= k < o@.len() ==> o@[k] as int == so[k],
                forall|k: int| 0 <= k < i ==> 0 <= #[trigger] so[k] < i,
                scan_pos(keys@, so, kv, 0) == scan_pos(keys@, so, kv, p as int),
            decreases o@.len() - p,
        {
            p = p + 1;
        }
        assert(scan_pos(keys@, so, kv, p as int) == p);
        o.insert(p, i);
        assert forall|k: int| 0 <= k < o@.len() implies o@[k] as int == sort_order(
            keys@,
            i + 1,
        )[k] by {
            assert(sort_order(keys@, i + 1) == so.insert(p as int, i as int));
        }
        i = i + 1;
    }
    o
}

} // verus!
