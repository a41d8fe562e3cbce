//! The pool's two tables, operations and batches, and the rules that hold
//! between them.

pub mod pool_batch;
pub mod pool_tx;

use vstd::prelude::*;
use crate::model::pool_batch::{BatchStatus, PoolBatch, PoolBatchView};
use crate::model::pool_tx::{PoolTx, PoolTxView, TxStatus};
use crate::types::{h256_eq, words_view, H256, U256};

verus! {

/// The state that the members of a batch are in while the batch is in `status`.
pub open spec fn member_status(status: BatchStatus) -> TxStatus {
    match status {
        BatchStatus::Succeeded => TxStatus::Settled,
        BatchStatus::Failed => TxStatus::Failed,
        _ => TxStatus::Locked,
    }
}

/// The state that the members of a batch are in while the batch is in `status`.
pub fn member_state(status: BatchStatus) -> (state: TxStatus)
    ensures
        state == member_status(status),
{
    match status {
        BatchStatus::Succeeded => TxStatus::Settled,
        BatchStatus::Failed => TxStatus::Failed,
        _ => TxStatus::Locked,
    }
}

/// Whether a batch's optional fields fit its state: no proof before one is
/// recorded, a proof with its inputs from then on, and a settlement
/// transaction exactly when the batch has succeeded.
pub open spec fn batch_fields_fit(b: PoolBatchView) -> bool {
    &&& b.status.accepts_proof() ==> b.zk_proof is None && b.zk_pub_inputs is None
    &&& (b.zk_proof is Some) == (b.zk_pub_inputs is Some)
    &&& (b.status == BatchStatus::ProofSubmitted || b.status == BatchStatus::Submitting
        || b.status == BatchStatus::Succeeded) ==> b.zk_proof is Some
    &&& (b.send_tx_hash is Some) == (b.status == BatchStatus::Succeeded)
}

/// The mathematical content of a [`Pool`]: its rows in the order they were inserted.
pub ghost struct PoolView {
    pub txs: Seq<PoolTxView>,
    pub batches: Seq<PoolBatchView>,
}

impl PoolView {
    /// Whether an operation with this id is stored.
    pub open spec fn has_tx(self, hash: Seq<u8>) -> bool {
        exists|i: int| 0 <= i < self.txs.len() && (#[trigger] self.txs[i]).tx_hash == hash
    }

    /// Whether a batch with this id is stored.
    pub open spec fn has_batch(self, hash: Seq<u8>) -> bool {
        exists|b: int| 0 <= b < self.batches.len() && (#[trigger] self.batches[b]).batch_hash == hash
    }

    /// Whether a batch without members is stored.
    pub open spec fn has_empty_batch(self) -> bool {
        exists|b: int| 0 <= b < self.batches.len() && (#[trigger] self.batches[b]).tx_hash_list.len() == 0
    }

    /// Whether the batch at position `b` has this id and no batch before it has.
    pub open spec fn is_first_batch(self, b: int, hash: Seq<u8>) -> bool {
        &&& 0 <= b < self.batches.len()
        &&& self.batches[b].batch_hash == hash
        &&& forall|k: int| 0 <= k < b ==> (#[trigger] self.batches[k]).batch_hash != hash
    }

    /// Whether every stored operation with this id, if there is one, is in state `status`.
    pub open spec fn stored_in_state(self, hash: Seq<u8>, status: TxStatus) -> bool {
        forall|i: int|
            0 <= i < self.txs.len() && (#[trigger] self.txs[i]).tx_hash == hash ==> self.txs[i].status
                == status
    }

    /// Whether position `m` of batch `b` names a member.
    pub open spec fn is_member(self, b: int, m: int) -> bool {
        0 <= b < self.batches.len() && 0 <= m < self.batches[b].tx_hash_list.len()
    }

    /// The id at position `m` of batch `b`.
    pub open spec fn member(self, b: int, m: int) -> Seq<u8> {
        self.batches[b].tx_hash_list[m]
    }

    /// The rules that every reachable pool obeys:
    /// no two operations share an id, at most one batch has no members, every
    /// member of a batch that is still stored is in the state that the batch's
    /// state calls for, no operation is a member twice (of one batch or of
    /// two), and each batch's optional fields fit its state. A member need
    /// not be stored: operations may be removed from the pool.
    pub open spec fn wf(self) -> bool {
        &&& forall|i: int, j: int|
            0 <= i < j < self.txs.len() ==> (#[trigger] self.txs[i]).tx_hash != (
            #[trigger] self.txs[j]).tx_hash
        &&& forall|a: int, b: int|
            0 <= a < b < self.batches.len() ==> (#[trigger] self.batches[a]).tx_hash_list.len() > 0 || (
            #[trigger] self.batches[b]).tx_hash_list.len() > 0
        &&& forall|b: int, m: int| #[trigger]
            self.is_member(b, m) ==> self.stored_in_state(
                self.member(b, m),
                member_status(self.batches[b].status),
            )
        &&& forall|b1: int, m1: int, b2: int, m2: int|
            #[trigger] self.is_member(b1, m1) && #[trigger] self.is_member(b2, m2) && (b1 != b2
                || m1 != m2) ==> self.member(b1, m1) != self.member(b2, m2)
        &&& forall|b: int|
            0 <= b < self.batches.len() ==> batch_fields_fit(#[trigger] self.batches[b])
    }
}

impl PoolView {
    /// The position of the stored operation with this id; meaningful where there is one.
    pub open spec fn tx_index(self, hash: Seq<u8>) -> int {
        choose|i: int| 0 <= i < self.txs.len() && (#[trigger] self.txs[i]).tx_hash == hash
    }

    /// The position of the first stored batch with this id; meaningful where
    /// there is one. Ids are hashes of member lists, so two batches can share one
    /// only where the hash collides.
    pub open spec fn batch_index(self, hash: Seq<u8>) -> int {
        choose|b: int| self.is_first_batch(b, hash)
    }

    /// Whether the batch at position `b` has this id as a member.
    pub open spec fn has_member(self, b: int, hash: Seq<u8>) -> bool {
        exists|m: int| #[trigger] self.is_member(b, m) && self.member(b, m) == hash
    }

    /// Whether this id is a member of a batch.
    pub open spec fn is_batched(self, hash: Seq<u8>) -> bool {
        exists|b: int| #[trigger] self.has_member(b, hash)
    }

    /// The position of the batch that has this id as a member; meaningful where there is one.
    pub open spec fn batch_of(self, hash: Seq<u8>) -> int {
        choose|b: int| #[trigger] self.has_member(b, hash)
    }

    /// The state in which an operation with this id enters the pool: waiting,
    /// unless a batch has the id as a member already; then the state that this
    /// batch calls for.
    pub open spec fn intake_status(self, hash: Seq<u8>) -> TxStatus {
        if self.is_batched(hash) {
            member_status(self.batches[self.batch_of(hash)].status)
        } else {
            TxStatus::Received
        }
    }

    /// The pool after an operation is offered: stored at the end, in the state
    /// in which its id enters, unless its id is already there.
    pub open spec fn with_tx(self, row: PoolTxView) -> PoolView {
        if self.has_tx(row.tx_hash) {
            self
        } else {
            PoolView {
                txs: self.txs.push(row.with_status(self.intake_status(row.tx_hash))),
                ..self
            }
        }
    }

    /// The pool without the operation at position `i`.
    pub open spec fn without_tx(self, i: int) -> PoolView {
        PoolView { txs: self.txs.remove(i), ..self }
    }

    /// The ids of the operations at the given positions, in that order.
    pub open spec fn picked_hashes(self, picked: Seq<int>) -> Seq<Seq<u8>> {
        Seq::new(picked.len(), |k: int| self.txs[picked[k]].tx_hash)
    }

    /// The pool after the operations at the given positions are locked.
    pub open spec fn with_locked(self, picked: Seq<int>) -> PoolView {
        PoolView {
            txs: Seq::new(
                self.txs.len(),
                |i: int|
                    if picked.contains(i) {
                        self.txs[i].with_status(TxStatus::Locked)
                    } else {
                        self.txs[i]
                    },
            ),
            ..self
        }
    }

    /// The batch that is formed from the operations at the given positions.
    pub open spec fn new_batch(self, picked: Seq<int>, batch_hash: Seq<u8>, now: int) -> PoolBatchView {
        PoolBatchView {
            batch_hash,
            tx_hash_list: self.picked_hashes(picked),
            zk_proof: None,
            zk_pub_inputs: None,
            send_tx_hash: None,
            created_at: now,
            status: BatchStatus::Received,
        }
    }

    /// The pool after a batch is formed from the operations at the given
    /// positions: they are locked, and the batch is stored at the end.
    pub open spec fn with_batch(self, picked: Seq<int>, batch_hash: Seq<u8>, now: int) -> PoolView {
        PoolView {
            txs: self.with_locked(picked).txs,
            batches: self.batches.push(self.new_batch(picked, batch_hash, now)),
        }
    }

    /// The pool with the batch at position `b` replaced.
    pub open spec fn with_batch_row(self, b: int, row: PoolBatchView) -> PoolView {
        PoolView { batches: self.batches.update(b, row), ..self }
    }

    /// The pool with every operation whose id is in `members` moved to `status`.
    pub open spec fn with_members_in(self, members: Seq<Seq<u8>>, status: TxStatus) -> PoolView {
        PoolView {
            txs: Seq::new(
                self.txs.len(),
                |i: int|
                    if members.contains(self.txs[i].tx_hash) {
                        self.txs[i].with_status(status)
                    } else {
                        self.txs[i]
                    },
            ),
            ..self
        }
    }

    /// The pool after the settlement of the batch at position `b` has ended:
    /// with a settlement transaction the batch has succeeded and its members
    /// are settled; without one the batch and its members have failed.
    pub open spec fn finished(self, b: int, receipt: Option<Seq<u8>>) -> PoolView {
        let row = self.batches[b];
        match receipt {
            Some(h) => self.with_members_in(row.tx_hash_list, TxStatus::Settled).with_batch_row(
                b,
                row.with_receipt(h),
            ),
            None => self.with_members_in(row.tx_hash_list, TxStatus::Failed).with_batch_row(
                b,
                row.with_status(BatchStatus::Failed),
            ),
        }
    }
}

/// In a pool that obeys the rules, an id names one position only.
pub proof fn lemma_tx_index(s: PoolView, i: int)
    requires
        s.wf(),
        0 <= i < s.txs.len(),
    ensures
        s.has_tx(s.txs[i].tx_hash),
        s.tx_index(s.txs[i].tx_hash) == i,
{
    let h = s.txs[i].tx_hash;
    let c = s.tx_index(h);
    assert(0 <= c < s.txs.len() && s.txs[c].tx_hash == h);
    if c < i {
        assert(s.txs[c].tx_hash != s.txs[i].tx_hash);
    } else if i < c {
        assert(s.txs[i].tx_hash != s.txs[c].tx_hash);
    }
}

/// The first batch with an id is the batch that the id stands for.
pub proof fn lemma_batch_index(s: PoolView, b: int, hash: Seq<u8>)
    requires
        s.is_first_batch(b, hash),
    ensures
        s.has_batch(hash),
        s.batch_index(hash) == b,
{
    let c = s.batch_index(hash);
    assert(s.is_first_batch(c, hash));
    if c < b {
        assert(s.batches[c].batch_hash != hash);
    } else if b < c {
        assert(s.batches[b].batch_hash != hash);
    }
}

/// In a pool that obeys the rules, a member id names one batch only.
pub proof fn lemma_batch_of(s: PoolView, b: int, m: int)
    requires
        s.wf(),
        s.is_member(b, m),
    ensures
        s.is_batched(s.member(b, m)),
        s.batch_of(s.member(b, m)) == b,
{
    let h = s.member(b, m);
    assert(s.has_member(b, h));
    let c = s.batch_of(h);
    assert(s.has_member(c, h));
    let k = choose|k: int| #[trigger] s.is_member(c, k) && s.member(c, k) == h;
    assert(s.is_member(c, k) && s.member(c, k) == h);
}

/// Offering an operation keeps the rules.
pub proof fn lemma_with_tx_wf(s: PoolView, row: PoolTxView)
    requires
        s.wf(),
    ensures
        s.with_tx(row).wf(),
{
    let t = s.with_tx(row);
    if !s.has_tx(row.tx_hash) {
        let n = s.txs.len() as int;
        assert forall|i: int, j: int| 0 <= i < j < t.txs.len() implies (#[trigger] t.txs[i]).tx_hash
            != (#[trigger] t.txs[j]).tx_hash by {
            if j == n {
                assert(s.txs[i].tx_hash != row.tx_hash);
            } else {
                assert(s.txs[i].tx_hash != s.txs[j].tx_hash);
            }
        }
        assert forall|b: int, m: int| #[trigger] t.is_member(b, m) implies t.stored_in_state(
            t.member(b, m),
            member_status(t.batches[b].status),
        ) by {
            assert(s.is_member(b, m));
            assert(s.stored_in_state(s.member(b, m), member_status(s.batches[b].status)));
            assert forall|i: int|
                0 <= i < t.txs.len() && (#[trigger] t.txs[i]).tx_hash == t.member(
                    b,
                    m,
                ) implies t.txs[i].status == member_status(t.batches[b].status) by {
                if i == n {
                    lemma_batch_of(s, b, m);
                } else {
                    assert(t.txs[i] == s.txs[i]);
                }
            }
        }
        assert forall|b1: int, m1: int, b2: int, m2: int|
            #[trigger] t.is_member(b1, m1) && #[trigger] t.is_member(b2, m2) && (b1 != b2 || m1
                != m2) implies t.member(b1, m1) != t.member(b2, m2) by {
            assert(s.is_member(b1, m1) && s.is_member(b2, m2));
        }
    }
}

/// Removing an operation keeps the rules.
pub proof fn lemma_without_tx_wf(s: PoolView, i: int)
    requires
        s.wf(),
        0 <= i < s.txs.len(),
    ensures
        s.without_tx(i).wf(),
{
    let t = s.without_tx(i);
    assert forall|k: int| 0 <= k < t.txs.len() implies #[trigger] t.txs[k] == s.txs[if k < i {
        k
    } else {
        k + 1
    }] by {}
    assert forall|j: int, k: int| 0 <= j < k < t.txs.len() implies (#[trigger] t.txs[j]).tx_hash != (
    #[trigger] t.txs[k]).tx_hash by {
        let j0 = if j < i { j } else { j + 1 };
        let k0 = if k < i { k } else { k + 1 };
        assert(s.txs[j0].tx_hash != s.txs[k0].tx_hash);
    }
    assert forall|b: int, m: int| #[trigger] t.is_member(b, m) implies t.stored_in_state(
        t.member(b, m),
        member_status(t.batches[b].status),
    ) by {
        assert(s.is_member(b, m));
        assert(s.stored_in_state(s.member(b, m), member_status(s.batches[b].status)));
        assert forall|k: int|
            0 <= k < t.txs.len() && (#[trigger] t.txs[k]).tx_hash == t.member(b, m) implies t.txs[k].status
            == member_status(t.batches[b].status) by {
            let k0 = if k < i { k } else { k + 1 };
            assert(s.txs[k0].tx_hash == s.member(b, m));
        }
    }
    assert forall|b1: int, m1: int, b2: int, m2: int|
        #[trigger] t.is_member(b1, m1) && #[trigger] t.is_member(b2, m2) && (b1 != b2 || m1
            != m2) implies t.member(b1, m1) != t.member(b2, m2) by {
        assert(s.is_member(b1, m1) && s.is_member(b2, m2));
    }
}

/// Replacing a batch by one with the same id and members, in a state that
/// calls for the same state of its members, with fitting fields, keeps the rules.
pub proof fn lemma_batch_row_wf(s: PoolView, b: int, row: PoolBatchView)
    requires
        s.wf(),
        0 <= b < s.batches.len(),
        row.batch_hash == s.batches[b].batch_hash,
        row.tx_hash_list == s.batches[b].tx_hash_list,
        member_status(row.status) == member_status(s.batches[b].status),
        batch_fields_fit(row),
    ensures
        s.with_batch_row(b, row).wf(),
{
    let t = s.with_batch_row(b, row);
    assert forall|a: int, c: int| 0 <= a < c < t.batches.len() implies (
    #[trigger] t.batches[a]).tx_hash_list.len() > 0 || (#[trigger] t.batches[c]).tx_hash_list.len()
        > 0 by {
        assert(s.batches[a].tx_hash_list.len() > 0 || s.batches[c].tx_hash_list.len() > 0);
    }
    assert forall|c: int, m: int| #[trigger] t.is_member(c, m) implies t.stored_in_state(
        t.member(c, m),
        member_status(t.batches[c].status),
    ) by {
        assert(s.is_member(c, m));
        assert(s.stored_in_state(s.member(c, m), member_status(s.batches[c].status)));
    }
    assert forall|b1: int, m1: int, b2: int, m2: int|
        #[trigger] t.is_member(b1, m1) && #[trigger] t.is_member(b2, m2) && (b1 != b2 || m1
            != m2) implies t.member(b1, m1) != t.member(b2, m2) by {
        assert(s.is_member(b1, m1) && s.is_member(b2, m2));
    }
    assert forall|c: int| 0 <= c < t.batches.len() implies batch_fields_fit(
        #[trigger] t.batches[c],
    ) by {
        if c != b {
            assert(batch_fields_fit(s.batches[c]));
        }
    }
}

/// Forming a batch from distinct waiting operations keeps the rules, unless
/// it would be a second batch without members.
pub proof fn lemma_with_batch_wf(s: PoolView, picked: Seq<int>, batch_hash: Seq<u8>, now: int)
    requires
        s.wf(),
        picked.len() > 0 || !s.has_empty_batch(),
        forall|k: int|
            0 <= k < picked.len() ==> 0 <= (#[trigger] picked[k]) < s.txs.len() && s.txs[picked[k]].status
                == TxStatus::Received,
        forall|k: int, l: int|
            0 <= k < l < picked.len() ==> (#[trigger] picked[k]) != (#[trigger] picked[l]),
    ensures
        s.with_batch(picked, batch_hash, now).wf(),
{
    let t = s.with_batch(picked, batch_hash, now);
    let nb = s.batches.len() as int;
    assert forall|i: int| 0 <= i < t.txs.len() implies (#[trigger] t.txs[i]).tx_hash
        == s.txs[i].tx_hash by {}
    assert forall|i: int, j: int| 0 <= i < j < t.txs.len() implies (#[trigger] t.txs[i]).tx_hash != (
    #[trigger] t.txs[j]).tx_hash by {
        assert(s.txs[i].tx_hash != s.txs[j].tx_hash);
    }
    assert forall|a: int, c: int| 0 <= a < c < t.batches.len() implies (
    #[trigger] t.batches[a]).tx_hash_list.len() > 0 || (#[trigger] t.batches[c]).tx_hash_list.len()
        > 0 by {
        if c == nb {
            assert(t.batches[c].tx_hash_list.len() == picked.len());
            if picked.len() == 0 {
                assert(s.batches[a].tx_hash_list.len() > 0);
            }
        } else {
            assert(s.batches[a].tx_hash_list.len() > 0 || s.batches[c].tx_hash_list.len() > 0);
        }
    }
    assert forall|c: int, m: int| #[trigger] t.is_member(c, m) implies t.stored_in_state(
        t.member(c, m),
        member_status(t.batches[c].status),
    ) by {
        assert forall|i: int|
            0 <= i < t.txs.len() && (#[trigger] t.txs[i]).tx_hash == t.member(c, m) implies t.txs[i].status
            == member_status(t.batches[c].status) by {
            if c == nb {
                let j = picked[m];
                assert(picked.contains(j));
                if i < j {
                    assert(s.txs[i].tx_hash != s.txs[j].tx_hash);
                } else if j < i {
                    assert(s.txs[j].tx_hash != s.txs[i].tx_hash);
                }
            } else {
                assert(s.is_member(c, m));
                assert(s.stored_in_state(s.member(c, m), member_status(s.batches[c].status)));
                assert(s.txs[i].tx_hash == s.member(c, m));
                if picked.contains(i) {
                    let k = choose|k: int| 0 <= k < picked.len() && picked[k] == i;
                    assert(s.txs[picked[k]].status == TxStatus::Received);
                }
            }
        }
    }
    assert forall|b1: int, m1: int, b2: int, m2: int|
        #[trigger] t.is_member(b1, m1) && #[trigger] t.is_member(b2, m2) && (b1 != b2 || m1
            != m2) implies t.member(b1, m1) != t.member(b2, m2) by {
        if b1 == nb && b2 == nb {
            let i = picked[m1];
            let j = picked[m2];
            if m1 < m2 {
                assert(picked[m1] != picked[m2]);
            } else {
                assert(picked[m2] != picked[m1]);
            }
            if i < j {
                assert(s.txs[i].tx_hash != s.txs[j].tx_hash);
            } else {
                assert(s.txs[j].tx_hash != s.txs[i].tx_hash);
            }
        } else if b1 != nb && b2 != nb {
            assert(s.is_member(b1, m1) && s.is_member(b2, m2));
        } else {
            let (bo, mo, mn) = if b1 == nb { (b2, m2, m1) } else { (b1, m1, m2) };
            assert(s.is_member(bo, mo));
            assert(s.stored_in_state(s.member(bo, mo), member_status(s.batches[bo].status)));
            let j = picked[mn];
            assert(s.txs[j].status == TxStatus::Received);
        }
    }
    assert forall|c: int| 0 <= c < t.batches.len() implies batch_fields_fit(
        #[trigger] t.batches[c],
    ) by {
        if c != nb {
            assert(batch_fields_fit(s.batches[c]));
        }
    }
}

/// Ending the settlement of a batch that was not yet over keeps the rules.
pub proof fn lemma_finished_wf(s: PoolView, b: int, receipt: Option<Seq<u8>>)
    requires
        s.wf(),
        0 <= b < s.batches.len(),
        !s.batches[b].status.is_terminal(),
        receipt is Some ==> s.batches[b].zk_proof is Some,
    ensures
        s.finished(b, receipt).wf(),
{
    let t = s.finished(b, receipt);
    let list = s.batches[b].tx_hash_list;
    let to = if receipt is Some { TxStatus::Settled } else { TxStatus::Failed };
    assert(batch_fields_fit(s.batches[b]));
    assert forall|i: int| 0 <= i < t.txs.len() implies (#[trigger] t.txs[i]).tx_hash
        == s.txs[i].tx_hash by {}
    assert forall|i: int, j: int| 0 <= i < j < t.txs.len() implies (#[trigger] t.txs[i]).tx_hash != (
    #[trigger] t.txs[j]).tx_hash by {
        assert(s.txs[i].tx_hash != s.txs[j].tx_hash);
    }
    assert forall|a: int, c: int| 0 <= a < c < t.batches.len() implies (
    #[trigger] t.batches[a]).tx_hash_list.len() > 0 || (#[trigger] t.batches[c]).tx_hash_list.len()
        > 0 by {
        assert(s.batches[a].tx_hash_list.len() > 0 || s.batches[c].tx_hash_list.len() > 0);
    }
    assert forall|c: int, m: int| #[trigger] t.is_member(c, m) implies t.stored_in_state(
        t.member(c, m),
        member_status(t.batches[c].status),
    ) by {
        assert(s.is_member(c, m));
        let h = s.member(c, m);
        assert(s.stored_in_state(h, member_status(s.batches[c].status)));
        assert forall|i: int|
            0 <= i < t.txs.len() && (#[trigger] t.txs[i]).tx_hash == h implies t.txs[i].status
            == member_status(t.batches[c].status) by {
            assert(s.txs[i].tx_hash == h);
            if c == b {
                assert(list[m] == h);
                assert(list.contains(h));
            } else if list.contains(h) {
                let m2 = choose|m2: int| 0 <= m2 < list.len() && list[m2] == h;
                assert(s.is_member(b, m2));
                assert(s.member(b, m2) != s.member(c, m));
            }
        }
    }
    assert forall|b1: int, m1: int, b2: int, m2: int|
        #[trigger] t.is_member(b1, m1) && #[trigger] t.is_member(b2, m2) && (b1 != b2 || m1
            != m2) implies t.member(b1, m1) != t.member(b2, m2) by {
        assert(s.is_member(b1, m1) && s.is_member(b2, m2));
    }
    assert forall|c: int| 0 <= c < t.batches.len() implies batch_fields_fit(
        #[trigger] t.batches[c],
    ) by {
        if c != b {
            assert(batch_fields_fit(s.batches[c]));
        }
    }
}

impl PoolView {
    /// Whether `next` can follow this pool: every row is still there, in its
    /// place and with what it was stored with; states have only moved
    /// forward; a proof, its inputs and a settlement transaction, once
    /// recorded, are what they were.
    pub open spec fn leads_to(self, next: PoolView) -> bool {
        &&& self.txs.len() <= next.txs.len()
        &&& forall|i: int|
            0 <= i < self.txs.len() ==> {
                let before = self.txs[i];
                let after = #[trigger] next.txs[i];
                &&& after == before.with_status(after.status)
                &&& before.status.may_become(after.status)
            }
        &&& self.batches.len() <= next.batches.len()
        &&& forall|b: int|
            0 <= b < self.batches.len() ==> {
                let before = self.batches[b];
                let after = #[trigger] next.batches[b];
                &&& after.batch_hash == before.batch_hash
                &&& after.tx_hash_list == before.tx_hash_list
                &&& after.created_at == before.created_at
                &&& before.status.may_become(after.status)
                &&& before.zk_proof is Some ==> after.zk_proof == before.zk_proof
                    && after.zk_pub_inputs == before.zk_pub_inputs
                &&& before.send_tx_hash is Some ==> after.send_tx_hash == before.send_tx_hash
            }
    }
}

/// Forming a batch from waiting operations moves states forward only.
pub proof fn lemma_with_batch_leads(s: PoolView, picked: Seq<int>, batch_hash: Seq<u8>, now: int)
    requires
        forall|k: int|
            0 <= k < picked.len() ==> 0 <= (#[trigger] picked[k]) < s.txs.len() && s.txs[picked[k]].status
                == TxStatus::Received,
    ensures
        s.leads_to(s.with_batch(picked, batch_hash, now)),
{
    let t = s.with_batch(picked, batch_hash, now);
    assert forall|i: int| 0 <= i < s.txs.len() implies {
        let before = s.txs[i];
        let after = #[trigger] t.txs[i];
        &&& after == before.with_status(after.status)
        &&& before.status.may_become(after.status)
    } by {
        if picked.contains(i) {
            let k = choose|k: int| 0 <= k < picked.len() && picked[k] == i;
            assert(s.txs[picked[k]].status == TxStatus::Received);
        }
    }
}

/// Ending the settlement of a batch that was not yet over moves states forward only.
pub proof fn lemma_finished_leads(s: PoolView, b: int, receipt: Option<Seq<u8>>)
    requires
        s.wf(),
        0 <= b < s.batches.len(),
        !s.batches[b].status.is_terminal(),
    ensures
        s.leads_to(s.finished(b, receipt)),
{
    let t = s.finished(b, receipt);
    let list = s.batches[b].tx_hash_list;
    assert(batch_fields_fit(s.batches[b]));
    assert forall|i: int| 0 <= i < s.txs.len() implies {
        let before = s.txs[i];
        let after = #[trigger] t.txs[i];
        &&& after == before.with_status(after.status)
        &&& before.status.may_become(after.status)
    } by {
        if list.contains(s.txs[i].tx_hash) {
            let m = choose|m: int| 0 <= m < list.len() && list[m] == s.txs[i].tx_hash;
            assert(s.is_member(b, m));
            assert(s.stored_in_state(s.member(b, m), TxStatus::Locked));
        }
    }
}

/// The pool: every admitted operation and every batch formed from them.
pub struct Pool {
    txs: Vec<PoolTx>,
    batches: Vec<PoolBatch>,
}

impl View for Pool {
    type V = PoolView;

    closed spec fn view(&self) -> PoolView {
        PoolView {
            txs: Seq::new(self.txs@.len(), |i: int| self.txs@[i]@),
            batches: Seq::new(self.batches@.len(), |b: int| self.batches@[b]@),
        }
    }
}

impl Pool {
    /// An empty pool.
    pub fn new() -> (pool: Pool)
        ensures
            pool@.txs.len() == 0,
            pool@.batches.len() == 0,
            pool@.wf(),
    {
        Pool { txs: Vec::new(), batches: Vec::new() }
    }

    /// How many operations are stored.
    pub fn tx_count(&self) -> (n: usize)
        ensures
            n == self@.txs.len(),
    {
        self.txs.len()
    }

    /// The operation at position `i`, counted in order of admission.
    pub fn tx(&self, i: usize) -> (row: &PoolTx)
        requires
            i < self@.txs.len(),
        ensures
            row@ == self@.txs[i as int],
    {
        &self.txs[i]
    }

    /// How many batches are stored.
    pub fn batch_count(&self) -> (n: usize)
        ensures
            n == self@.batches.len(),
    {
        self.batches.len()
    }

    /// The batch at position `b`, counted in order of formation.
    pub fn batch(&self, b: usize) -> (row: &PoolBatch)
        requires
            b < self@.batches.len(),
        ensures
            row@ == self@.batches[b as int],
    {
        &self.batches[b]
    }

    /// The position of the first stored operation with this id.
    pub fn find_tx(&self, hash: &H256) -> (found: Option<usize>)
        ensures
            match found {
                Some(i) => i < self@.txs.len() && self@.txs[i as int].tx_hash == hash@ && forall|
                    k: int,
                |
                    0 <= k < i ==> (#[trigger] self@.txs[k]).tx_hash != hash@,
                None => !self@.has_tx(hash@),
            },
    {
        let mut i: usize = 0;
        while i < self.txs.len()
            invariant
                i <= self.txs.len(),
                forall|k: int| 0 <= k < i ==> (#[trigger] self@.txs[k]).tx_hash != hash@,
            decreases self.txs.len() - i,
        {
            if h256_eq(&self.txs[i].tx_hash, hash) {
                return Some(i);
            }
            i += 1;
        }
        None
    }

    /// The position of the first stored batch with this id.
    pub fn find_batch(&self, hash: &H256) -> (found: Option<usize>)
        ensures
            match found {
                Some(b) => b < self@.batches.len() && self@.batches[b as int].batch_hash == hash@
                    && forall|k: int|
                    0 <= k < b ==> (#[trigger] self@.batches[k]).batch_hash != hash@,
                None => !self@.has_batch(hash@),
            },
    {
        let mut b: usize = 0;
        while b < self.batches.len()
            invariant
                b <= self.batches.len(),
                forall|k: int| 0 <= k < b ==> (#[trigger] self@.batches[k]).batch_hash != hash@,
            decreases self.batches.len() - b,
        {
            if h256_eq(&self.batches[b].batch_hash, hash) {
                return Some(b);
            }
            b += 1;
        }
        None
    }

    /// Whether a batch without members is stored.
    pub fn has_empty_batch(&self) -> (found: bool)
        ensures
            found == self@.has_empty_batch(),
    {
        let mut b: usize = 0;
        while b < self.batches.len()
            invariant
                b <= self.batches.len(),
                forall|k: int| 0 <= k < b ==> (#[trigger] self@.batches[k]).tx_hash_list.len() > 0,
            decreases self.batches.len() - b,
        {
            if self.batches[b].tx_hash_list.len() == 0 {
                assert(self@.batches[b as int].tx_hash_list.len() == 0);
                return true;
            }
            b += 1;
        }
        false
    }

    /// The position of the first batch that has this id as a member.
    pub fn find_member(&self, hash: &H256) -> (found: Option<usize>)
        ensures
            match found {
                Some(b) => self@.has_member(b as int, hash@),
                None => !self@.is_batched(hash@),
            },
    {
        let mut b: usize = 0;
        while b < self.batches.len()
            invariant
                b <= self.batches.len(),
                forall|c: int| 0 <= c < b ==> !#[trigger] self@.has_member(c, hash@),
            decreases self.batches.len() - b,
        {
            let list = &self.batches[b].tx_hash_list;
            let mut m: usize = 0;
            while m < list.len()
                invariant
                    m <= list.len(),
                    b < self.batches.len(),
                    list@ == self.batches@[b as int].tx_hash_list@,
                    forall|k: int| 0 <= k < m ==> #[trigger] self@.member(b as int, k) != hash@,
                decreases list.len() - m,
            {
                if h256_eq(&list[m], hash) {
                    assert(self@.is_member(b as int, m as int));
                    return Some(b);
                }
                m += 1;
            }
            assert(!self@.has_member(b as int, hash@)) by {
                if self@.has_member(b as int, hash@) {
                    let k = choose|k: int| #[trigger]
                        self@.is_member(b as int, k) && self@.member(b as int, k) == hash@;
                    assert(self@.member(b as int, k) != hash@);
                }
            }
            b += 1;
        }
        assert forall|c: int| !#[trigger] self@.has_member(c, hash@) by {
            if self@.has_member(c, hash@) {
                let k = choose|k: int| #[trigger] self@.is_member(c, k) && self@.member(c, k) == hash@;
                assert(0 <= c < self.batches.len());
            }
        }
        None
    }

    /// Takes the operation with this id out of the pool, for a retention
    /// policy that runs beside the pipeline. Batches keep the id as a member.
    pub fn remove_tx(&mut self, hash: &H256) -> (removed: Option<PoolTx>)
        requires
            old(self)@.wf(),
        ensures
            final(self)@.wf(),
            match removed {
                Some(row) => old(self)@.has_tx(hash@) && row@ == old(self)@.txs[old(self)@.tx_index(
                    hash@,
                )] && final(self)@ == old(self)@.without_tx(old(self)@.tx_index(hash@)),
                None => !old(self)@.has_tx(hash@) && final(self)@ == old(self)@,
            },
    {
        match self.find_tx(hash) {
            Some(i) => {
                proof {
                    lemma_tx_index(self@, i as int);
                    lemma_without_tx_wf(self@, i as int);
                }
                let row = self.txs.remove(i);
                assert(self@.txs =~= old(self)@.txs.remove(i as int));
                assert(self@.batches =~= old(self)@.batches);
                Some(row)
            },
            None => None,
        }
    }

    /// Appends an operation.
    pub(crate) fn push_tx(&mut self, row: PoolTx)
        ensures
            final(self)@.txs == old(self)@.txs.push(row@),
            final(self)@.batches == old(self)@.batches,
    {
        self.txs.push(row);
        assert(self@.txs =~= old(self)@.txs.push(row@));
        assert(self@.batches =~= old(self)@.batches);
    }

    /// Appends a batch.
    pub(crate) fn push_batch(&mut self, row: PoolBatch)
        ensures
            final(self)@.batches == old(self)@.batches.push(row@),
            final(self)@.txs == old(self)@.txs,
    {
        self.batches.push(row);
        assert(self@.batches =~= old(self)@.batches.push(row@));
        assert(self@.txs =~= old(self)@.txs);
    }

    /// Moves the operation at position `i` to another state.
    pub(crate) fn set_tx_status(&mut self, i: usize, status: TxStatus)
        requires
            i < old(self)@.txs.len(),
        ensures
            final(self)@.txs == old(self)@.txs.update(
                i as int,
                old(self)@.txs[i as int].with_status(status),
            ),
            final(self)@.batches == old(self)@.batches,
    {
        self.txs[i].status = status;
        assert(self@.txs =~= old(self)@.txs.update(
            i as int,
            old(self)@.txs[i as int].with_status(status),
        ));
        assert(self@.batches =~= old(self)@.batches);
    }

    /// Moves the batch at position `b` to another state.
    pub(crate) fn set_batch_status(&mut self, b: usize, status: BatchStatus)
        requires
            b < old(self)@.batches.len(),
        ensures
            final(self)@.batches == old(self)@.batches.update(
                b as int,
                old(self)@.batches[b as int].with_status(status),
            ),
            final(self)@.txs == old(self)@.txs,
    {
        self.batches[b].status = status;
        assert(self@.batches =~= old(self)@.batches.update(
            b as int,
            old(self)@.batches[b as int].with_status(status),
        ));
        assert(self@.txs =~= old(self)@.txs);
    }

    /// Records a proof and its public inputs with the batch at position `b`.
    pub(crate) fn set_batch_proof(&mut self, b: usize, proof: Vec<u8>, inputs: Vec<U256>)
        requires
            b < old(self)@.batches.len(),
        ensures
            final(self)@.batches == old(self)@.batches.update(
                b as int,
                old(self)@.batches[b as int].with_proof(proof@, words_view(inputs@)),
            ),
            final(self)@.txs == old(self)@.txs,
    {
        self.batches[b].zk_proof = Some(proof);
        self.batches[b].zk_pub_inputs = Some(inputs);
        self.batches[b].status = BatchStatus::ProofSubmitted;
        assert(self@.batches =~= old(self)@.batches.update(
            b as int,
            old(self)@.batches[b as int].with_proof(proof@, words_view(inputs@)),
        ));
        assert(self@.txs =~= old(self)@.txs);
    }

    /// Records the settlement transaction of the batch at position `b`.
    pub(crate) fn set_batch_receipt(&mut self, b: usize, send_tx_hash: H256)
        requires
            b < old(self)@.batches.len(),
        ensures
            final(self)@.batches == old(self)@.batches.update(
                b as int,
                old(self)@.batches[b as int].with_receipt(send_tx_hash@),
            ),
            final(self)@.txs == old(self)@.txs,
    {
        self.batches[b].send_tx_hash = Some(send_tx_hash);
        self.batches[b].status = BatchStatus::Succeeded;
        assert(self@.batches =~= old(self)@.batches.update(
            b as int,
            old(self)@.batches[b as int].with_receipt(send_tx_hash@),
        ));
        assert(self@.txs =~= old(self)@.txs);
    }
}

} // verus!
