//! Ranking of search candidates: the best entries first, ties kept in the
//! order they came in, at most a given number of them.
//!
//! Scores are given as order keys: integers that order as the scores do.

use vstd::prelude::*;

verus! {

/// Entry `a` ranks before entry `b`: a higher key, or an equal key and an
/// earlier position.
pub open spec fn ranks_before(keys: Seq<u64>, a: int, b: int) -> bool {
    keys[a] > keys[b] || (keys[a] == keys[b] && a < b)
}

/// `r` lists the best `r.len()` entries of `keys`, best first.
pub open spec fn is_top(keys: Seq<u64>, r: Seq<usize>) -> bool {
    &&& forall|i: int| 0 <= i < r.len() ==> (#[trigger] r[i]) < keys.len()
    &&& forall|i: int, j: int| 0 <= i < j < r.len() ==> ranks_before(keys, #[trigger] r[i] as int, #[trigger] r[j] as int)
    &&& forall|x: int, i: int|
        #![trigger r[i], keys[x]]
        0 <= x < keys.len() && 0 <= i < r.len() && !r.contains(x as usize) ==> ranks_before(
            keys,
            r[i] as int,
            x,
        )
}

/// The positions of the best `limit` entries of `keys` (all of them when
/// there are fewer), ordered by descending key, equal keys in input order:
/// what a stable sort by descending score followed by truncation keeps.
pub fn top_by_key(keys: &Vec<u64>, limit: usize) -> (r: Vec<usize>)
    ensures
        r@.len() == (if limit < keys@.len() {
            limit as int
        } else {
            keys@.len() as int
        }),
        is_top(keys@, r@),
{
    let n: usize = keys.len();
    let want: usize = if limit < n {
        limit
    } else {
        n
    };
    let mut chosen: Vec<bool> = Vec::new();
    let mut i: usize = 0;
    while i < n
        invariant
            i <= n == keys@.len(),
            chosen@.len() == i,
            forall|k: int| 0 <= k < i ==> !chosen@[k],
        decreases n - i,
    {
        chosen.push(false);
        i = i + 1;
    }
    let mut r: Vec<usize> = Vec::new();
    while r.len() < want
        invariant
            want <= n == keys@.len(),
            chosen@.len() == n,
            r@.len() <= want,
            forall|k: int| 0 <= k < n ==> (chosen@[k] <==> r@.contains(k as usize)),
            is_top(keys@, r@),
        decreases want - r@.len(),
    {
        // r holds fewer than n distinct positions, so one is still free
        let mut best: usize = n;
        let mut k: usize = 0;
        while k < n
            invariant
                k <= n == keys@.len(),
                chosen@.len() == n,
                best == n || (best < k && !chosen@[best as int]),
                best == n ==> forall|m: int| 0 <= m < k ==> chosen@[m],
                best < n ==> forall|m: int|
                    0 <= m < k && !chosen@[m] && m != best ==> ranks_before(keys@, best as int, m),
            decreases n - k,
        {
            if !chosen[k] {
                if best == n || keys[k] > keys[best] {
                    best = k;
                }
            }
            k = k + 1;
        }
        if best == n {
            // every position is chosen, yet r is shorter than n
            proof {
                assert forall|k: int| 0 <= k < n implies #[trigger] r@.contains(k as usize) by {
                    assert(chosen@[k]);
                }
                lemma_cover_bound(r@, n);
            }
            assert(false);
        }
        let ghost before = r@;
        assert(!before.contains(best));
        r.push(best);
        chosen.set(best, true);
        assert forall|k: int| 0 <= k < n implies (chosen@[k] <==> r@.contains(k as usize)) by {
            if k == best as int {
                assert(r@[before.len() as int] == best);
            } else {
                if before.contains(k as usize) {
                    let w = choose|w: int| 0 <= w < before.len() && before[w] == k as usize;
                    assert(r@[w] == k as usize);
                }
                if r@.contains(k as usize) {
                    let w = choose|w: int| 0 <= w < r@.len() && r@[w] == k as usize;
                    assert(w < before.len());
                    assert(before[w] == k as usize);
                }
            }
        }
        assert forall|i: int, j: int| 0 <= i < j < r@.len() implies ranks_before(
            keys@,
            #[trigger] r@[i] as int,
            #[trigger] r@[j] as int,
        ) by {
            if j < before.len() {
                assert(r@[i] == before[i] && r@[j] == before[j]);
            } else {
                assert(r@[i] == before[i]);
                assert(!before.contains(best));
                assert(ranks_before(keys@, before[i] as int, best as int));
            }
        }
        assert forall|x: int, i: int|
            #![trigger r@[i], keys@[x]]
            0 <= x < keys@.len() && 0 <= i < r@.len() && !r@.contains(x as usize) implies ranks_before(
            keys@,
            r@[i] as int,
            x,
        ) by {
            assert(!before.contains(x as usize)) by {
                if before.contains(x as usize) {
                    let w = choose|w: int| 0 <= w < before.len() && before[w] == x as usize;
                    assert(r@[w] == x as usize);
                }
            }
            assert(x != best as int) by {
                assert(r@[before.len() as int] == best);
            }
            if i < before.len() {
                assert(r@[i] == before[i]);
            } else {
                assert(!chosen@[x] || x == best as int);
            }
        }
    }
    r
}

/// A sequence of positions that covers every position below `n` has at
/// least `n` entries.
proof fn lemma_cover_bound(r: Seq<usize>, n: usize)
    requires
        forall|k: int| 0 <= k < n ==> #[trigger] r.contains(k as usize),
    ensures
        r.len() >= n,
{
    let ri = r.map_values(|v: usize| v as int);
    let s = vstd::set_lib::set_int_range(0, n as int);
    assert forall|k: int| s.contains(k) implies ri.to_set().contains(k) by {
        assert(r.contains(k as usize));
        let w = choose|w: int| 0 <= w < r.len() && r[w] == k as usize;
        assert(ri[w] == k);
    }
    vstd::set_lib::lemma_int_range(0, n as int);
    ri.lemma_cardinality_of_set();
    vstd::seq_lib::seq_to_set_is_finite(ri);
    vstd::set_lib::lemma_len_subset(s, ri.to_set());
}

} // verus!
