use vstd::prelude::*;

verus! {

/// Entry `i` comes before entry `j` in a ranking by decreasing key; equal keys
/// keep their stored order.
pub open spec fn ranks_before(keys: Seq<i64>, i: int, j: int) -> bool {
    keys[i] > keys[j] || (keys[i] == keys[j] && i < j)
}

pub open spec fn min_len(k: nat, n: nat) -> nat {
    if k < n {
        k
    } else {
        n
    }
}

/// `r` lists, best first, the `k` entries (or all of them, if fewer) that rank
/// first by decreasing key, ties broken by stored order: what a stable sort
/// by decreasing key, cut to `k`, leaves.
pub open spec fn is_top_ranking(keys: Seq<i64>, k: nat, r: Seq<usize>) -> bool {
    &&& r.len() == min_len(k, keys.len())
    &&& forall|a: int| 0 <= a < r.len() ==> r[a] < keys.len()
    &&& forall|a: int, b: int|
        0 <= a < b < r.len() ==> ranks_before(keys, r[a] as int, r[b] as int)
    &&& forall|a: int, j: int|
        0 <= a < r.len() && 0 <= j < keys.len() && !r.contains(j as usize) ==> ranks_before(
            keys,
            r[a] as int,
            j,
        )
}

/// The top `k` ranking of `keys` (unique, see [`lemma_top_ranking_unique`]).
pub open spec fn top_ranking(keys: Seq<i64>, k: nat) -> Seq<usize> {
    choose|r: Seq<usize>| is_top_ranking(keys, k, r)
}

proof fn lemma_prefix_agrees(keys: Seq<i64>, k: nat, r1: Seq<usize>, r2: Seq<usize>, a: int)
    requires
        is_top_ranking(keys, k, r1),
        is_top_ranking(keys, k, r2),
        0 <= a < r1.len(),
    ensures
        forall|b: int| 0 <= b <= a ==> r1[b] == r2[b],
    decreases a,
{
    if a > 0 {
        lemma_prefix_agrees(keys, k, r1, r2, a - 1);
    }
    let x = r1[a];
    let y = r2[a];
    if x != y {
        assert(ranks_before(keys, x as int, y as int)) by {
            if r1.contains(y) {
                let c = choose|c: int| 0 <= c < r1.len() && r1[c] == y;
                if c < a {
                    assert(r2[c] == y);
                    assert(ranks_before(keys, r2[c] as int, r2[a] as int));
                } else {
                    assert(c != a);
                }
            }
        }
        assert(ranks_before(keys, y as int, x as int)) by {
            if r2.contains(x) {
                let c = choose|c: int| 0 <= c < r2.len() && r2[c] == x;
                if c < a {
                    assert(r1[c] == x);
                    assert(ranks_before(keys, r1[c] as int, r1[a] as int));
                } else {
                    assert(c != a);
                }
            }
        }
    }
}

/// There is exactly one top ranking: two lists that both are one are equal.
pub proof fn lemma_top_ranking_unique(keys: Seq<i64>, k: nat, r1: Seq<usize>, r2: Seq<usize>)
    requires
        is_top_ranking(keys, k, r1),
        is_top_ranking(keys, k, r2),
    ensures
        r1 == r2,
{
    if r1.len() > 0 {
        lemma_prefix_agrees(keys, k, r1, r2, r1.len() - 1);
    }
    assert(r1 =~= r2);
}

/// `o` lists the indices below `i`, each once, best first.
pub open spec fn is_full_order(keys: Seq<i64>, i: nat, o: Seq<usize>) -> bool {
    &&& o.len() == i
    &&& forall|a: int| 0 <= a < i ==> (o[a] as int) < i
    &&& forall|j: usize| (j as int) < i ==> o.contains(j)
    &&& forall|a: int, b: int| 0 <= a < b < i ==> ranks_before(keys, o[a] as int, o[b] as int)
}

proof fn lemma_insert_pos(keys: Seq<i64>, o: Seq<usize>, x: int, p: int) -> (q: int)
    requires
        0 <= p <= o.len(),
        0 <= x < keys.len(),
        forall|r: int| 0 <= r < p ==> !(keys[x] > keys[o[r] as int]),
    ensures
        p <= q <= o.len(),
        forall|r: int| 0 <= r < q ==> !(keys[x] > keys[o[r] as int]),
        q < o.len() ==> keys[x] > keys[o[q] as int],
    decreases o.len() - p,
{
    if p == o.len() {
        p
    } else if keys[x] > keys[o[p] as int] {
        p
    } else {
        lemma_insert_pos(keys, o, x, p + 1)
    }
}

proof fn lemma_full_order(keys: Seq<i64>, i: nat) -> (o: Seq<usize>)
    requires
        i <= keys.len(),
        keys.len() <= usize::MAX,
    ensures
        is_full_order(keys, i, o),
    decreases i,
{
    if i == 0 {
        Seq::<usize>::empty()
    } else {
        let old_order = lemma_full_order(keys, (i - 1) as nat);
        let x = i - 1;
        let p = lemma_insert_pos(keys, old_order, x, 0);
        let o = old_order.insert(p, x as usize);
        assert forall|y: int| 0 <= y < o.len() implies o[y] == (if y < p {
            old_order[y]
        } else if y == p {
            x as usize
        } else {
            old_order[y - 1]
        }) by {}
        assert forall|a: int| 0 <= a < i implies (o[a] as int) < i by {}
        assert forall|j: usize| (j as int) < i implies o.contains(j) by {
            if j == x {
                assert(o[p] == j);
            } else {
                assert(old_order.contains(j));
                let c = choose|c: int| 0 <= c < old_order.len() && old_order[c] == j;
                if c < p {
                    assert(o[c] == j);
                } else {
                    assert(o[c + 1] == j);
                }
            }
        }
        assert forall|a: int, b: int| 0 <= a < b < i implies ranks_before(keys, o[a] as int, o[b] as int) by {
            if b < p {
            } else if b == p {
                assert(!(keys[x] > keys[old_order[a] as int]));
            } else if a == p {
                assert(keys[x] > keys[old_order[p] as int]);
                if p < b - 1 {
                    assert(ranks_before(keys, old_order[p] as int, old_order[b - 1] as int));
                }
            } else if a < p {
                assert(ranks_before(keys, old_order[a] as int, old_order[b - 1] as int));
            } else {
                assert(ranks_before(keys, old_order[a - 1] as int, old_order[b - 1] as int));
            }
        }
        o
    }
}

/// Every list of keys has its top ranking, for every count asked for.
pub proof fn lemma_top_ranking_exists(keys: Seq<i64>, k: nat)
    requires
        keys.len() <= usize::MAX,
    ensures
        is_top_ranking(keys, k, top_ranking(keys, k)),
{
    let full = lemma_full_order(keys, keys.len());
    let r = full.take(min_len(k, keys.len()) as int);
    assert forall|a: int, j: int|
        0 <= a < r.len() && 0 <= j < keys.len() && !r.contains(j as usize) implies ranks_before(
        keys,
        r[a] as int,
        j,
    ) by {
        assert(full.contains(j as usize));
        let c = choose|c: int| 0 <= c < full.len() && full[c] == j as usize;
        if c < r.len() {
            assert(r[c] == j as usize);
        } else {
            assert(ranks_before(keys, full[a] as int, full[c] as int));
        }
    }
    assert(is_top_ranking(keys, k, r));
}

/// Indices of the `k` best-ranked keys, best first.
pub fn rank_top(keys: &Vec<i64>, k: usize) -> (r: Vec<usize>)
    ensures
        r@ == top_ranking(keys@, k as nat),
        is_top_ranking(keys@, k as nat, r@),
{
    let n = keys.len();
    let mut order: Vec<usize> = Vec::new();
    let mut i: usize = 0;
    while i < n
        invariant
            n == keys@.len(),
            i <= n,
            order@.len() == i,
            forall|a: int| 0 <= a < i ==> order@[a] < i,
            forall|j: usize| j < i ==> order@.contains(j),
            forall|a: int, b: int|
                0 <= a < b < i ==> ranks_before(keys@, order@[a] as int, order@[b] as int),
        decreases n - i,
    {
        let mut p: usize = 0;
        while p < order.len() && !(keys[i] > keys[order[p]])
            invariant
                n == keys@.len(),
                i < n,
                order@.len() == i,
                forall|a: int| 0 <= a < i ==> order@[a] < i,
                p <= order@.len(),
                forall|q: int| 0 <= q < p ==> !(keys@[i as int] > keys@[order@[q] as int]),
            decreases order@.len() - p,
        {
            p += 1;
        }
        let ghost old_order = order@;
        order.insert(p, i);
        proof {
            let o = order@;
            assert forall|x: int| 0 <= x < o.len() implies o[x] == (if x < p {
                old_order[x]
            } else if x == p {
                i
            } else {
                old_order[x - 1]
            }) by {}
            assert forall|a: int| 0 <= a < i + 1 implies o[a] < i + 1 by {}
            assert forall|j: usize| j < i + 1 implies o.contains(j) by {
                if j == i {
                    assert(o[p as int] == i);
                } else {
                    assert(old_order.contains(j));
                    let c = choose|c: int| 0 <= c < old_order.len() && old_order[c] == j;
                    if c < p {
                        assert(o[c] == j);
                    } else {
                        assert(o[c + 1] == j);
                    }
                }
            }
            assert forall|a: int, b: int| 0 <= a < b < i + 1 implies ranks_before(
                keys@,
                o[a] as int,
                o[b] as int,
            ) by {
                if b < p {
                } else if b == p {
                    assert(!(keys@[i as int] > keys@[old_order[a] as int]));
                } else if a == p {
                    assert(keys@[i as int] > keys@[old_order[p as int] as int]);
                    if p < b - 1 {
                        assert(ranks_before(keys@, old_order[p as int] as int, old_order[b - 1] as int));
                    }
                } else if a < p {
                    assert(ranks_before(keys@, old_order[a] as int, old_order[b - 1] as int));
                } else {
                    assert(ranks_before(keys@, old_order[a - 1] as int, old_order[b - 1] as int));
                }
            }
        }
        i += 1;
    }
    let ghost full = order@;
    if k < n {
        order.truncate(k);
    }
    proof {
        let r = order@;
        assert(r =~= full.take(r.len() as int));
        assert forall|a: int, j: int|
            0 <= a < r.len() && 0 <= j < keys@.len() && !r.contains(j as usize) implies ranks_before(
            keys@,
            r[a] as int,
            j,
        ) by {
            assert(full.contains(j as usize));
            let c = choose|c: int| 0 <= c < full.len() && full[c] == j as usize;
            if c < r.len() {
                assert(r[c] == j as usize);
            } else {
                assert(ranks_before(keys@, full[a] as int, full[c] as int));
            }
        }
        assert(is_top_ranking(keys@, k as nat, r));
        lemma_top_ranking_unique(keys@, k as nat, r, top_ranking(keys@, k as nat));
    }
    order
}

} // verus!
