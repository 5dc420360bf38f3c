//! Stable ordering by position: entries sorted by their position, entries of
//! equal position kept in their original order (as a stable sort leaves them).

use vstd::prelude::*;

verus! {

/// Index `x` comes before index `y` when ordering by key, ties broken by index.
pub open spec fn precedes(keys: Seq<u32>, x: usize, y: usize) -> bool {
    keys[x as int] < keys[y as int] || (keys[x as int] == keys[y as int] && x < y)
}

/// `order` lists each of the indices `0..n` once, ordered by key and, among
/// equal keys, by index.
pub open spec fn is_stable_prefix_order(keys: Seq<u32>, n: int, order: Seq<usize>) -> bool {
    &&& order.len() == n
    &&& forall|k: int| 0 <= k < order.len() ==> #[trigger] order[k] < n
    &&& forall|i: usize| 0 <= i < n ==> #[trigger] order.contains(i)
    &&& forall|a: int, b: int|
        0 <= a < b < order.len() ==> precedes(keys, #[trigger] order[a], #[trigger] order[b])
}

/// `order` is the order in which a stable sort by key leaves the entries
/// whose keys are `keys`: it lists every index once, by key, and entries of
/// equal key in their original order.
pub open spec fn is_stable_order(keys: Seq<u32>, order: Seq<usize>) -> bool {
    is_stable_prefix_order(keys, keys.len() as int, order)
}

/// The order in which a stable sort by key leaves entries whose keys are `keys`.
pub open spec fn stable_order(keys: Seq<u32>) -> Seq<usize> {
    choose|order: Seq<usize>| is_stable_order(keys, order)
}

/// Inserting index `i` at place `p` into a stable order of `0..i` gives a
/// stable order of `0..i+1`, when `p` follows every entry of key at most
/// `keys[i]` and precedes every other.
proof fn lemma_insert_keeps_order(keys: Seq<u32>, order: Seq<usize>, i: usize, p: int)
    requires
        i < keys.len(),
        is_stable_prefix_order(keys, i as int, order),
        0 <= p <= order.len(),
        forall|q: int| 0 <= q < p ==> keys[#[trigger] order[q] as int] <= keys[i as int],
        p < order.len() ==> keys[order[p] as int] > keys[i as int],
    ensures
        is_stable_prefix_order(keys, i + 1, order.insert(p, i)),
{
    let next = order.insert(p, i);
    assert forall|q: int| p < q < order.len()
        implies keys[#[trigger] order[q] as int] > keys[i as int] by {
        assert(precedes(keys, order[p], order[q]));
    }
    assert forall|j: usize| 0 <= j < i + 1 implies #[trigger] next.contains(j) by {
        if j == i {
            assert(next[p] == i);
        } else {
            assert(order.contains(j));
            let k = choose|k: int| 0 <= k < order.len() && order[k] == j;
            if k < p {
                assert(next[k] == j);
            } else {
                assert(next[k + 1] == j);
            }
        }
    }
    assert forall|a: int, b: int| 0 <= a < b < next.len() implies precedes(
        keys,
        #[trigger] next[a],
        #[trigger] next[b],
    ) by {
        if a < p && b < p {
            assert(precedes(keys, order[a], order[b]));
        } else if a < p && b == p {
            assert(keys[order[a] as int] <= keys[i as int]);
        } else if a < p {
            assert(precedes(keys, order[a], order[b - 1]));
        } else if a == p {
            assert(keys[order[b - 1] as int] > keys[i as int]);
        } else {
            assert(precedes(keys, order[a - 1], order[b - 1]));
        }
    }
}

/// The place at which key `key` goes into `order`: after every leading entry
/// whose key is at most `key`.
spec fn insertion_point(keys: Seq<u32>, order: Seq<usize>, key: u32) -> int
    decreases order.len(),
{
    if order.len() == 0 {
        0
    } else if keys[order[0] as int] > key {
        0
    } else {
        1 + insertion_point(keys, order.drop_first(), key)
    }
}

proof fn lemma_insertion_point(keys: Seq<u32>, order: Seq<usize>, key: u32)
    ensures
        0 <= insertion_point(keys, order, key) <= order.len(),
        forall|q: int|
            0 <= q < insertion_point(keys, order, key) ==> keys[#[trigger] order[q] as int] <= key,
        insertion_point(keys, order, key) < order.len()
            ==> keys[order[insertion_point(keys, order, key)] as int] > key,
    decreases order.len(),
{
    if order.len() > 0 && keys[order[0] as int] <= key {
        let rest = order.drop_first();
        lemma_insertion_point(keys, rest, key);
        assert forall|q: int| 0 <= q < insertion_point(keys, order, key)
            implies keys[#[trigger] order[q] as int] <= key by {
            if q > 0 {
                assert(order[q] == rest[q - 1]);
            }
        }
    }
}

/// Every prefix `0..n` of the entries has a stable order.
proof fn lemma_stable_prefix_order_exists(keys: Seq<u32>, n: usize)
    requires
        n <= keys.len(),
    ensures
        exists|order: Seq<usize>| is_stable_prefix_order(keys, n as int, order),
    decreases n,
{
    if n == 0 {
        assert(is_stable_prefix_order(keys, 0, Seq::<usize>::empty()));
    } else {
        let i = (n - 1) as usize;
        lemma_stable_prefix_order_exists(keys, i);
        let order = choose|order: Seq<usize>| is_stable_prefix_order(keys, i as int, order);
        let p = insertion_point(keys, order, keys[i as int]);
        lemma_insertion_point(keys, order, keys[i as int]);
        lemma_insert_keeps_order(keys, order, i, p);
    }
}

/// Two orders that list the same indices, each sorted strictly by key and
/// index, are the same order.
proof fn lemma_sorted_same_members_equal(keys: Seq<u32>, o1: Seq<usize>, o2: Seq<usize>)
    requires
        forall|k: int| 0 <= k < o1.len() ==> #[trigger] o1[k] < keys.len(),
        forall|k: int| 0 <= k < o2.len() ==> #[trigger] o2[k] < keys.len(),
        forall|a: int, b: int|
            0 <= a < b < o1.len() ==> precedes(keys, #[trigger] o1[a], #[trigger] o1[b]),
        forall|a: int, b: int|
            0 <= a < b < o2.len() ==> precedes(keys, #[trigger] o2[a], #[trigger] o2[b]),
        forall|x: usize| #![trigger o1.contains(x)] #![trigger o2.contains(x)]
            o1.contains(x) <==> o2.contains(x),
    ensures
        o1 == o2,
    decreases o1.len(),
{
    if o1.len() == 0 {
        if o2.len() > 0 {
            assert(o2.contains(o2[0]));
        }
        assert(o1 =~= o2);
    } else {
        assert(o1.contains(o1[0]));
        assert(o2.len() > 0);
        assert(o2.contains(o2[0]));
        let x = o1[0];
        let y = o2[0];
        let j = choose|j: int| 0 <= j < o2.len() && o2[j] == x;
        let i = choose|i: int| 0 <= i < o1.len() && o1[i] == y;
        if j > 0 && i > 0 {
            assert(precedes(keys, y, x));
            assert(precedes(keys, x, y));
        }
        assert(x == y);
        let r1 = o1.drop_first();
        let r2 = o2.drop_first();
        assert forall|z: usize| #![trigger r1.contains(z)] #![trigger r2.contains(z)]
            r1.contains(z) <==> r2.contains(z) by {
            if r1.contains(z) {
                let k = choose|k: int| 0 <= k < r1.len() && r1[k] == z;
                assert(o1[k + 1] == z);
                assert(precedes(keys, o1[0], o1[k + 1]));
                assert(o1.contains(z));
                let m = choose|m: int| 0 <= m < o2.len() && o2[m] == z;
                if m == 0 {
                    assert(false);
                }
                assert(r2[m - 1] == z);
            }
            if r2.contains(z) {
                let k = choose|k: int| 0 <= k < r2.len() && r2[k] == z;
                assert(o2[k + 1] == z);
                assert(precedes(keys, o2[0], o2[k + 1]));
                assert(o2.contains(z));
                let m = choose|m: int| 0 <= m < o1.len() && o1[m] == z;
                if m == 0 {
                    assert(false);
                }
                assert(r1[m - 1] == z);
            }
        }
        assert forall|a: int, b: int| 0 <= a < b < r1.len() implies precedes(
            keys,
            #[trigger] r1[a],
            #[trigger] r1[b],
        ) by {
            assert(precedes(keys, o1[a + 1], o1[b + 1]));
        }
        assert forall|a: int, b: int| 0 <= a < b < r2.len() implies precedes(
            keys,
            #[trigger] r2[a],
            #[trigger] r2[b],
        ) by {
            assert(precedes(keys, o2[a + 1], o2[b + 1]));
        }
        assert forall|k: int| 0 <= k < r1.len() implies #[trigger] r1[k] < keys.len() by {
            assert(o1[k + 1] < keys.len());
        }
        assert forall|k: int| 0 <= k < r2.len() implies #[trigger] r2[k] < keys.len() by {
            assert(o2[k + 1] < keys.len());
        }
        lemma_sorted_same_members_equal(keys, r1, r2);
        assert(o1 =~= seq![x] + r1);
        assert(o2 =~= seq![y] + r2);
    }
}

/// Law: every sequence of keys has exactly one stable order, and
/// `stable_order` is it.
pub proof fn lemma_stable_order_unique(keys: Seq<u32>, order: Seq<usize>)
    requires
        keys.len() <= usize::MAX,
    ensures
        is_stable_order(keys, stable_order(keys)),
        is_stable_order(keys, order) ==> order == stable_order(keys),
{
    lemma_stable_prefix_order_exists(keys, keys.len() as usize);
    let witness = choose|o: Seq<usize>| is_stable_prefix_order(keys, keys.len() as int, o);
    assert(is_stable_order(keys, witness));
    let chosen = stable_order(keys);
    if is_stable_order(keys, order) {
        assert forall|x: usize| #![trigger order.contains(x)] #![trigger chosen.contains(x)]
            order.contains(x) <==> chosen.contains(x) by {
            if order.contains(x) {
                let k = choose|k: int| 0 <= k < order.len() && order[k] == x;
                assert(order[k] < keys.len());
                assert(chosen.contains(x));
            }
            if chosen.contains(x) {
                let k = choose|k: int| 0 <= k < chosen.len() && chosen[k] == x;
                assert(chosen[k] < keys.len());
                assert(order.contains(x));
            }
        }
        lemma_sorted_same_members_equal(keys, order, chosen);
    }
}

/// Law: the stable order sorts: it lists each index of `keys` exactly once,
/// keys never decrease along it, and entries with equal keys keep the order
/// in which they were given.
pub proof fn lemma_stable_order_sorts(keys: Seq<u32>)
    requires
        keys.len() <= usize::MAX,
    ensures
        stable_order(keys).len() == keys.len(),
        forall|k: int| 0 <= k < keys.len() ==> #[trigger] stable_order(keys)[k] < keys.len(),
        forall|i: usize| 0 <= i < keys.len() ==> #[trigger] stable_order(keys).contains(i),
        forall|a: int, b: int|
            0 <= a < b < keys.len() ==> keys[#[trigger] stable_order(keys)[a] as int] <= keys[
                #[trigger] stable_order(keys)[b] as int],
        forall|a: int, b: int|
            0 <= a < b < keys.len() && keys[#[trigger] stable_order(keys)[a] as int] == keys[
                #[trigger] stable_order(keys)[b] as int] ==> stable_order(keys)[a] < stable_order(
                keys,
            )[b],
        forall|a: int, b: int|
            0 <= a < b < keys.len() ==> #[trigger] stable_order(keys)[a] != #[trigger] stable_order(
                keys,
            )[b],
{
    lemma_stable_order_unique(keys, Seq::empty());
    let o = stable_order(keys);
    assert forall|a: int, b: int| 0 <= a < b < keys.len() implies keys[#[trigger] o[a] as int]
        <= keys[#[trigger] o[b] as int] && (keys[o[a] as int] == keys[o[b] as int] ==> o[a] < o[b])
        && o[a] != o[b] by {
        assert(precedes(keys, o[a], o[b]));
    }
}

/// The order in which a stable sort by key leaves entries whose keys are
/// `keys` (indices into `keys`).
pub fn stable_order_of(keys: &Vec<u32>) -> (order: Vec<usize>)
    ensures
        order@ == stable_order(keys@),
        is_stable_order(keys@, order@),
{
    let n = keys.len();
    let mut order: Vec<usize> = Vec::new();
    let mut i: usize = 0;
    while i < n
        invariant
            n == keys@.len(),
            i <= n,
            is_stable_prefix_order(keys@, i as int, order@),
        decreases n - i,
    {
        let key = keys[i];
        let mut p: usize = 0;
        while p < order.len() && keys[order[p]] <= key
            invariant
                n == keys@.len(),
                i < n,
                key == keys@[i as int],
                is_stable_prefix_order(keys@, i as int, order@),
                p <= order@.len(),
                forall|q: int| 0 <= q < p ==> keys@[#[trigger] order@[q] as int] <= key,
            decreases order@.len() - p,
        {
            p = p + 1;
        }
        proof {
            lemma_insert_keeps_order(keys@, order@, i, p as int);
        }
        order.insert(p, i);
        i = i + 1;
    }
    proof {
        lemma_stable_order_unique(keys@, order@);
    }
    order
}

} // verus!
