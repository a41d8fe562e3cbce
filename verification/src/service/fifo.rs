//! Which operations a batching pass takes: the oldest that wait, oldest first.

use vstd::prelude::*;
use crate::model::pool_tx::{PoolTxView, TxStatus};
use crate::model::Pool;

verus! {

/// Whether position `i` holds an operation that waits for a batch.
pub open spec fn is_received(txs: Seq<PoolTxView>, i: int) -> bool {
    0 <= i < txs.len() && txs[i].status == TxStatus::Received
}

/// Whether the operation at `i` comes before the one at `j` in the order of
/// admission: by time, and by position where the times are equal.
pub open spec fn before(txs: Seq<PoolTxView>, i: int, j: int) -> bool {
    txs[i].created_at < txs[j].created_at || (txs[i].created_at == txs[j].created_at && i < j)
}

/// Whether `picked` lists the positions of the oldest waiting operations,
/// oldest first: at most `limit` of them, all of them waiting, in strictly
/// ascending order of admission, none older left out, and fewer than `limit`
/// only where no waiting operation is left out at all.
pub open spec fn is_fifo_pick(txs: Seq<PoolTxView>, limit: nat, picked: Seq<int>) -> bool {
    &&& picked.len() <= limit
    &&& forall|k: int| 0 <= k < picked.len() ==> is_received(txs, #[trigger] picked[k])
    &&& forall|k: int, l: int|
        0 <= k < l < picked.len() ==> before(txs, #[trigger] picked[k], #[trigger] picked[l])
    &&& forall|j: int, k: int|
        #[trigger] is_received(txs, j) && !picked.contains(j) && 0 <= k < picked.len() ==> before(
            txs,
            #[trigger] picked[k],
            j,
        )
    &&& picked.len() < limit ==> forall|j: int| #[trigger]
        is_received(txs, j) ==> picked.contains(j)
}

/// The positions of the oldest waiting operations, at most `limit` of them, oldest first.
pub open spec fn fifo_pick(txs: Seq<PoolTxView>, limit: nat) -> Seq<int> {
    choose|picked: Seq<int>| is_fifo_pick(txs, limit, picked)
}

/// A list of positions as mathematical integers.
pub open spec fn as_ints(v: Seq<usize>) -> Seq<int> {
    Seq::new(v.len(), |k: int| v[k] as int)
}

/// There is only one way to pick the oldest waiting operations: two lists
/// that both qualify are the same list.
pub proof fn lemma_fifo_pick_unique(txs: Seq<PoolTxView>, limit: nat, p: Seq<int>, q: Seq<int>)
    requires
        is_fifo_pick(txs, limit, p),
        is_fifo_pick(txs, limit, q),
    ensures
        p == q,
{
    lemma_fifo_pick_prefix(txs, limit, p, q, if p.len() <= q.len() { p.len() } else { q.len() });
    if p.len() < q.len() {
        let j = q[p.len() as int];
        assert(is_received(txs, j));
        assert(p.contains(j));
        let m = choose|m: int| 0 <= m < p.len() && p[m] == j;
        assert(q[m] == p[m]);
        assert(before(txs, q[m], q[p.len() as int]));
    }
    if q.len() < p.len() {
        let j = p[q.len() as int];
        assert(is_received(txs, j));
        assert(q.contains(j));
        let m = choose|m: int| 0 <= m < q.len() && q[m] == j;
        assert(q[m] == p[m]);
        assert(before(txs, p[m], p[q.len() as int]));
    }
    assert(p =~= q);
}

/// Two qualifying lists agree on every position that both have.
proof fn lemma_fifo_pick_prefix(txs: Seq<PoolTxView>, limit: nat, p: Seq<int>, q: Seq<int>, n: nat)
    requires
        is_fifo_pick(txs, limit, p),
        is_fifo_pick(txs, limit, q),
        n <= p.len(),
        n <= q.len(),
    ensures
        forall|k: int| 0 <= k < n ==> p[k] == q[k],
    decreases n,
{
    if n > 0 {
        let k = (n - 1) as int;
        lemma_fifo_pick_prefix(txs, limit, p, q, k as nat);
        if p[k] != q[k] {
            lemma_not_in_other(txs, limit, p, q, k);
            lemma_not_in_other(txs, limit, q, p, k);
            assert(is_received(txs, p[k]));
            assert(is_received(txs, q[k]));
            assert(before(txs, q[k], p[k]));
            assert(before(txs, p[k], q[k]));
        }
    }
}

/// Where two qualifying lists agree below `k` and differ at `k`, and the
/// first list's entry at `k` also occurs in the second, it occurs there after
/// `k`, so the second list's entry at `k` comes before it.
proof fn lemma_not_in_other(txs: Seq<PoolTxView>, limit: nat, p: Seq<int>, q: Seq<int>, k: int)
    requires
        is_fifo_pick(txs, limit, p),
        is_fifo_pick(txs, limit, q),
        0 <= k < p.len(),
        k < q.len(),
        forall|i: int| 0 <= i < k ==> p[i] == q[i],
        p[k] != q[k],
    ensures
        before(txs, q[k], p[k]),
{
    assert(is_received(txs, p[k]));
    if q.contains(p[k]) {
        let m = choose|m: int| 0 <= m < q.len() && q[m] == p[k];
        if m < k {
            assert(p[m] == q[m]);
            assert(before(txs, p[m], p[k]));
        } else {
            assert(before(txs, q[k], q[m]));
        }
    } else {
        assert(before(txs, q[k], p[k]));
    }
}

/// Whether `picked` lists waiting operations in strictly ascending order of
/// admission and leaves out none that is older than one it lists.
spec fn picks_oldest(txs: Seq<PoolTxView>, picked: Seq<int>) -> bool {
    &&& forall|k: int| 0 <= k < picked.len() ==> is_received(txs, #[trigger] picked[k])
    &&& forall|k: int, l: int|
        0 <= k < l < picked.len() ==> before(txs, #[trigger] picked[k], #[trigger] picked[l])
    &&& forall|j: int, k: int|
        #[trigger] is_received(txs, j) && !picked.contains(j) && 0 <= k < picked.len() ==> before(
            txs,
            #[trigger] picked[k],
            j,
        )
}

/// Among the first `n` positions, the candidate that comes before every other, if there is one.
proof fn lemma_least_candidate(txs: Seq<PoolTxView>, picked: Seq<int>, n: nat) -> (best: Option<int>)
    requires
        n <= txs.len(),
    ensures
        match best {
            Some(b) => 0 <= b < n && is_candidate(txs, picked, b) && forall|c: int|
                0 <= c < n && #[trigger] is_candidate(txs, picked, c) ==> c == b || before(txs, b, c),
            None => forall|c: int| 0 <= c < n ==> !#[trigger] is_candidate(txs, picked, c),
        },
    decreases n,
{
    if n == 0 {
        None
    } else {
        let prev = lemma_least_candidate(txs, picked, (n - 1) as nat);
        let c = (n - 1) as int;
        if is_candidate(txs, picked, c) {
            match prev {
                Some(b) => if before(txs, c, b) {
                    Some(c)
                } else {
                    Some(b)
                },
                None => Some(c),
            }
        } else {
            prev
        }
    }
}

/// A list of the oldest waiting operations stays one when the candidate that
/// comes before every other is put at its end.
proof fn lemma_extend_pick(txs: Seq<PoolTxView>, prev: Seq<int>, b: int)
    requires
        picks_oldest(txs, prev),
        is_candidate(txs, prev, b),
        forall|c: int|
            0 <= c < txs.len() && #[trigger] is_candidate(txs, prev, c) ==> c == b || before(txs, b, c),
    ensures
        picks_oldest(txs, prev.push(b)),
{
    let cur = prev.push(b);
    assert forall|k: int, l: int| 0 <= k < l < cur.len() implies before(
        txs,
        #[trigger] cur[k],
        #[trigger] cur[l],
    ) by {
        if l == cur.len() - 1 && k < l - 1 {
            assert(before(txs, prev[k], prev[l - 1]));
        }
    }
    assert forall|j: int, k: int|
        #[trigger] is_received(txs, j) && !cur.contains(j) && 0 <= k < cur.len() implies before(
        txs,
        #[trigger] cur[k],
        j,
    ) by {
        assert(!prev.contains(j)) by {
            if prev.contains(j) {
                let m = choose|m: int| 0 <= m < prev.len() && prev[m] == j;
                assert(cur[m] == j);
            }
        }
        assert(cur[cur.len() - 1] == b);
        assert(j != b);
        if prev.len() > 0 {
            assert(before(txs, prev[prev.len() - 1], j));
        }
        assert(is_candidate(txs, prev, j));
        if k < prev.len() {
            assert(before(txs, prev[k], j));
        }
    }
}

/// A list of the oldest waiting operations after which no candidate is left
/// holds every waiting operation.
proof fn lemma_no_candidate(txs: Seq<PoolTxView>, cur: Seq<int>)
    requires
        picks_oldest(txs, cur),
        forall|c: int| 0 <= c < txs.len() ==> !#[trigger] is_candidate(txs, cur, c),
    ensures
        forall|j: int| #[trigger] is_received(txs, j) ==> cur.contains(j),
{
    assert forall|j: int| #[trigger] is_received(txs, j) implies cur.contains(j) by {
        if !cur.contains(j) {
            if cur.len() > 0 {
                assert(before(txs, cur[cur.len() - 1], j));
            }
            assert(is_candidate(txs, cur, j));
        }
    }
}

/// Builds a list of the oldest waiting operations, at most `limit` of them.
proof fn lemma_build_pick(txs: Seq<PoolTxView>, limit: nat) -> (p: Seq<int>)
    ensures
        is_fifo_pick(txs, limit, p),
    decreases limit,
{
    if limit == 0 {
        Seq::empty()
    } else {
        let q = lemma_build_pick(txs, (limit - 1) as nat);
        if q.len() < limit - 1 {
            q
        } else {
            match lemma_least_candidate(txs, q, txs.len()) {
                Some(b) => {
                    lemma_extend_pick(txs, q, b);
                    q.push(b)
                },
                None => {
                    lemma_no_candidate(txs, q);
                    q
                },
            }
        }
    }
}

/// For every pool and every limit there is a list of the oldest waiting
/// operations, and `fifo_pick` is that list.
pub proof fn lemma_fifo_pick_exists(txs: Seq<PoolTxView>, limit: nat)
    ensures
        is_fifo_pick(txs, limit, fifo_pick(txs, limit)),
{
    let p = lemma_build_pick(txs, limit);
}

/// The positions of the oldest waiting operations, at most `limit` of them,
/// oldest first; operations admitted at the same time go in order of position.
pub fn oldest_received(pool: &Pool, limit: usize) -> (picked: Vec<usize>)
    ensures
        is_fifo_pick(pool@.txs, limit as nat, as_ints(picked@)),
        as_ints(picked@) == fifo_pick(pool@.txs, limit as nat),
{
    let n = pool.tx_count();
    let ghost txs = pool@.txs;
    let mut picked: Vec<usize> = Vec::new();
    let mut done = false;
    while picked.len() < limit && !done
        invariant
            n == txs.len(),
            txs == pool@.txs,
            picked@.len() <= limit,
            forall|k: int| 0 <= k < picked@.len() ==> is_received(txs, #[trigger] as_ints(picked@)[k]),
            forall|k: int, l: int|
                0 <= k < l < picked@.len() ==> before(
                    txs,
                    #[trigger] as_ints(picked@)[k],
                    #[trigger] as_ints(picked@)[l],
                ),
            forall|j: int, k: int|
                #[trigger] is_received(txs, j) && !as_ints(picked@).contains(j) && 0 <= k
                    < picked@.len() ==> before(txs, #[trigger] as_ints(picked@)[k], j),
            done ==> forall|j: int| #[trigger]
                is_received(txs, j) ==> as_ints(picked@).contains(j),
        decreases (if done { 0int } else { 1int }), limit - picked.len(),
    {
        let ghost prev = as_ints(picked@);
        let have_last = picked.len() > 0;
        proof {
            if have_last {
                assert(is_received(txs, prev[prev.len() - 1]));
            }
        }
        let last: usize = if have_last { picked[picked.len() - 1] } else { 0 };
        let last_at: i64 = if have_last { pool.tx(last).created_at } else { 0 };
        let mut best: Option<usize> = None;
        let mut best_at: i64 = 0;
        let mut j: usize = 0;
        while j < n
            invariant
                j <= n,
                n == txs.len(),
                txs == pool@.txs,
                prev == as_ints(picked@),
                have_last == (picked@.len() > 0),
                have_last ==> last == picked@[picked@.len() - 1] && last < n && last_at
                    == txs[last as int].created_at,
                match best {
                    Some(b) => b < j && is_candidate(txs, prev, b as int) && best_at
                        == txs[b as int].created_at && forall|c: int|
                        0 <= c < j && #[trigger] is_candidate(txs, prev, c) ==> c == b || before(
                            txs,
                            b as int,
                            c,
                        ),
                    None => forall|c: int| 0 <= c < j ==> !#[trigger] is_candidate(txs, prev, c),
                },
            decreases n - j,
        {
            let row = pool.tx(j);
            let waiting = match row.status {
                TxStatus::Received => true,
                _ => false,
            };
            let after_last = !have_last || last_at < row.created_at || (last_at == row.created_at
                && last < j);
            if waiting && after_last {
                let better = match best {
                    Some(_) => row.created_at < best_at,
                    None => true,
                };
                if better {
                    best = Some(j);
                    best_at = row.created_at;
                }
            }
            j += 1;
        }
        match best {
            Some(b) => {
                picked.push(b);
                proof {
                    assert(as_ints(picked@) =~= prev.push(b as int));
                    lemma_extend_pick(txs, prev, b as int);
                }
            },
            None => {
                done = true;
                proof {
                    lemma_no_candidate(txs, prev);
                }
            },
        }
    }
    proof {
        assert(is_fifo_pick(txs, limit as nat, as_ints(picked@)));
        lemma_fifo_pick_unique(txs, limit as nat, as_ints(picked@), fifo_pick(txs, limit as nat));
    }
    picked
}

/// Whether the operation at `c` waits for a batch and comes after every
/// position picked so far.
spec fn is_candidate(txs: Seq<PoolTxView>, picked: Seq<int>, c: int) -> bool {
    is_received(txs, c) && (picked.len() > 0 ==> before(txs, picked[picked.len() - 1], c))
}

/// The positions of the operations that wait for a batch.
pub open spec fn received_set(txs: Seq<PoolTxView>) -> Set<int> {
    Set::new(|i: int| is_received(txs, i))
}

/// How many operations wait for a batch.
pub open spec fn received_count(txs: Seq<PoolTxView>) -> nat {
    received_set(txs).len()
}

/// A list of the oldest waiting operations has `limit` entries where that
/// many operations wait, and one entry for each waiting operation where fewer do.
pub proof fn lemma_pick_len(txs: Seq<PoolTxView>, limit: nat, p: Seq<int>)
    requires
        is_fifo_pick(txs, limit, p),
    ensures
        p.len() == if received_count(txs) < limit {
            received_count(txs)
        } else {
            limit
        },
{
    let waiting = received_set(txs);
    let all = vstd::set_lib::set_int_range(0, txs.len() as int);
    vstd::set_lib::lemma_int_range(0, txs.len() as int);
    assert(waiting.subset_of(all));
    vstd::set_lib::lemma_len_subset(waiting, all);
    assert(p.no_duplicates()) by {
        assert forall|i: int, j: int| 0 <= i < p.len() && 0 <= j < p.len() && i != j implies p[i]
            != p[j] by {
            if i < j {
                assert(before(txs, p[i], p[j]));
            } else {
                assert(before(txs, p[j], p[i]));
            }
        }
    }
    p.unique_seq_to_set();
    assert(p.to_set().subset_of(waiting)) by {
        assert forall|a: int| p.to_set().contains(a) implies waiting.contains(a) by {
            let k = choose|k: int| 0 <= k < p.len() && p[k] == a;
            assert(is_received(txs, p[k]));
        }
    }
    vstd::set_lib::lemma_len_subset(p.to_set(), waiting);
    if p.len() < limit {
        assert(p.to_set() =~= waiting) by {
            assert forall|a: int| waiting.contains(a) implies p.to_set().contains(a) by {
                assert(is_received(txs, a));
            }
        }
    }
}

} // verus!
