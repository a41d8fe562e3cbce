//! What holds of the pipeline as a whole: statements that relate several
//! steps, or that hold in every pool that the steps can reach.

use vstd::prelude::*;
use crate::eth::signed_tx_reading;
use crate::model::pool_batch::BatchStatus;
use crate::model::pool_tx::TxStatus;
use crate::model::{batch_fields_fit, lemma_batch_index, lemma_with_tx_wf, member_status, PoolView};
use crate::service::fifo::{
    fifo_pick, is_received, lemma_fifo_pick_exists, lemma_pick_len, received_count,
};
use crate::service::pool::{
    after_pass, batch_hash_of, proof_outcome_of, received_row, settlement_call,
    with_proof_offered, ProofOutcome,
};

verus! {

/// Intake is idempotent. A signed transaction that is taken in twice, at
/// whatever times, leaves the pool as one intake leaves it; its id, which is
/// read from the transaction alone, is then the id of exactly one stored operation.
pub proof fn lemma_intake_idempotent(s: PoolView, raw: Seq<u8>, first: int, second: int)
    requires
        s.wf(),
        signed_tx_reading(raw) is Ok,
    ensures
        ({
            let tx = signed_tx_reading(raw)->Ok_0;
            let once = s.with_tx(received_row(raw, tx, first));
            let twice = once.with_tx(received_row(raw, tx, second));
            &&& twice == once
            &&& once.wf()
            &&& once.has_tx(tx.hash)
            &&& forall|i: int, j: int|
                0 <= i < once.txs.len() && 0 <= j < once.txs.len() && (#[trigger] once.txs[i]).tx_hash
                    == tx.hash && (#[trigger] once.txs[j]).tx_hash == tx.hash ==> i == j
        }),
{
    let tx = signed_tx_reading(raw)->Ok_0;
    let row = received_row(raw, tx, first);
    let once = s.with_tx(row);
    lemma_with_tx_wf(s, row);
    if !s.has_tx(tx.hash) {
        assert(once.txs[s.txs.len() as int].tx_hash == tx.hash);
    }
    assert(once.has_tx(tx.hash));
    assert forall|i: int, j: int|
        0 <= i < once.txs.len() && 0 <= j < once.txs.len() && (#[trigger] once.txs[i]).tx_hash
            == tx.hash && (#[trigger] once.txs[j]).tx_hash == tx.hash implies i == j by {
        if i < j {
            assert(once.txs[i].tx_hash != once.txs[j].tx_hash);
        } else if j < i {
            assert(once.txs[j].tx_hash != once.txs[i].tx_hash);
        }
    }
}

/// The batch id is deterministic: two member lists that hold the same ids
/// in the same order have the same batch id.
pub proof fn lemma_batch_hash_deterministic(a: Seq<Seq<u8>>, b: Seq<Seq<u8>>)
    requires
        a.len() == b.len(),
        forall|i: int| 0 <= i < a.len() ==> a[i] == b[i],
    ensures
        batch_hash_of(a) == batch_hash_of(b),
{
    assert(a =~= b);
}

/// No operation is batched twice: in a pool that obeys the rules, two
/// different member positions, in one batch or in two, never hold the same id.
pub proof fn lemma_batches_disjoint(s: PoolView, b1: int, m1: int, b2: int, m2: int)
    requires
        s.wf(),
        s.is_member(b1, m1),
        s.is_member(b2, m2),
        b1 != b2 || m1 != m2,
    ensures
        s.member(b1, m1) != s.member(b2, m2),
{
}

/// An operation that waits for a batch is a member of none.
pub proof fn lemma_received_is_unbatched(s: PoolView, i: int, b: int, m: int)
    requires
        s.wf(),
        is_received(s.txs, i),
        s.is_member(b, m),
    ensures
        s.member(b, m) != s.txs[i].tx_hash,
{
    assert(s.stored_in_state(s.member(b, m), member_status(s.batches[b].status)));
}

/// The threshold gates batching. For a threshold of at least one, a pass
/// forms a batch exactly where at least that many operations wait. Where
/// fewer wait, the pool stays as it is. Where enough wait, exactly one batch
/// is added: it is stored last, waits for a proof, and has the `batch_size`
/// oldest waiting operations as its members, which are locked; every other
/// operation stays as it was.
pub proof fn lemma_threshold_gating(s: PoolView, batch_size: nat, now: int)
    requires
        s.wf(),
        batch_size >= 1,
    ensures
        ({
            let picked = fifo_pick(s.txs, batch_size);
            let after = after_pass(s, batch_size, now);
            &&& received_count(s.txs) < batch_size ==> after == s
            &&& (after.batches.len() == s.batches.len() + 1) == (received_count(s.txs) >= batch_size)
            &&& received_count(s.txs) >= batch_size ==> {
                &&& after.batches.drop_last() == s.batches
                &&& after.batches.last().status == BatchStatus::Received
                &&& after.batches.last().tx_hash_list.len() == batch_size
                &&& forall|k: int|
                    0 <= k < batch_size ==> after.batches.last().tx_hash_list[k] == (
                    #[trigger] s.txs[picked[k]]).tx_hash && s.txs[picked[k]].status
                        == TxStatus::Received && after.txs[picked[k]].status == TxStatus::Locked
                &&& forall|i: int|
                    0 <= i < s.txs.len() && !picked.contains(i) ==> #[trigger] after.txs[i]
                        == s.txs[i]
            }
        }),
{
    let picked = fifo_pick(s.txs, batch_size);
    lemma_fifo_pick_exists(s.txs, batch_size);
    lemma_pick_len(s.txs, batch_size, picked);
    if received_count(s.txs) >= batch_size {
        let after = after_pass(s, batch_size, now);
        assert(after.batches.drop_last() =~= s.batches);
        assert forall|k: int| 0 <= k < batch_size implies after.batches.last().tx_hash_list[k] == (
        #[trigger] s.txs[picked[k]]).tx_hash && s.txs[picked[k]].status == TxStatus::Received
            && after.txs[picked[k]].status == TxStatus::Locked by {
            assert(is_received(s.txs, picked[k]));
            assert(picked.contains(picked[k]));
        }
    }
}

/// No two stored batches have the same members in the same order.
pub proof fn lemma_member_lists_differ(s: PoolView, a: int, b: int)
    requires
        s.wf(),
        0 <= a < b < s.batches.len(),
    ensures
        s.batches[a].tx_hash_list != s.batches[b].tx_hash_list,
{
    if s.batches[a].tx_hash_list.len() > 0 {
        assert(s.is_member(a, 0));
        if s.batches[b].tx_hash_list.len() > 0 {
            assert(s.is_member(b, 0));
        }
    }
}

/// Who may prove a batch. A proof for an id that no batch has is not
/// accepted, and nothing changes. A proof for a batch that has succeeded is not
/// accepted, and nothing changes. A proof for a batch that waits for one is
/// accepted: the batch is then `ProofSubmitted` and holds the proof and its
/// public inputs. The batch that an id stands for is the first stored with it.
pub proof fn lemma_proof_eligibility(
    s: PoolView,
    batch_hash: Seq<u8>,
    zk_proof: Seq<u8>,
    zk_pub_inputs: Seq<Seq<u64>>,
)
    requires
        s.wf(),
    ensures
        ({
            let after = with_proof_offered(s, batch_hash, zk_proof, zk_pub_inputs);
            let outcome = proof_outcome_of(s, batch_hash);
            &&& !s.has_batch(batch_hash) ==> outcome == ProofOutcome::NotFound && after == s
            &&& forall|b: int| #[trigger]
                s.is_first_batch(b, batch_hash) ==> {
                    &&& s.batches[b].status == BatchStatus::Succeeded ==> outcome
                        == ProofOutcome::AlreadyProven && after == s
                    &&& s.batches[b].status == BatchStatus::Received ==> {
                        &&& outcome == ProofOutcome::Accepted
                        &&& after.batches[b].status == BatchStatus::ProofSubmitted
                        &&& after.batches[b].zk_proof == Some(zk_proof)
                        &&& after.batches[b].zk_pub_inputs == Some(zk_pub_inputs)
                    }
                }
        }),
{
    assert forall|b: int| #[trigger] s.is_first_batch(b, batch_hash) implies s.batch_index(
        batch_hash,
    ) == b && s.has_batch(batch_hash) && batch_fields_fit(s.batches[b]) by {
        lemma_batch_index(s, b, batch_hash);
    }
}

/// Settlement ends a batch one way or the other. For a batch with a proof
/// whose settlement call can be built: once the call is under way and its
/// transaction is included, the batch has succeeded, records that
/// transaction, and its stored members are settled; where no receipt comes,
/// the batch and its stored members have failed and no transaction is recorded. Either way
/// the pool obeys the rules.
pub proof fn lemma_settlement_finalization(
    s: PoolView,
    b: int,
    beneficiary: Seq<u8>,
    send_tx_hash: Seq<u8>,
)
    requires
        s.wf(),
        0 <= b < s.batches.len(),
        s.batches[b].status == BatchStatus::ProofSubmitted,
        settlement_call(s, b, beneficiary) is Ok,
    ensures
        ({
            let started = s.with_batch_row(b, s.batches[b].with_status(BatchStatus::Submitting));
            let included = started.finished(b, Some(send_tx_hash));
            let dropped = started.finished(b, None);
            &&& started.wf() && included.wf() && dropped.wf()
            &&& included.batches[b].status == BatchStatus::Succeeded
            &&& included.batches[b].send_tx_hash == Some(send_tx_hash)
            &&& dropped.batches[b].status == BatchStatus::Failed
            &&& dropped.batches[b].send_tx_hash is None
            &&& forall|m: int|
                0 <= m < s.batches[b].tx_hash_list.len() ==> included.stored_in_state(
                    #[trigger] s.batches[b].tx_hash_list[m],
                    TxStatus::Settled,
                ) && dropped.stored_in_state(s.batches[b].tx_hash_list[m], TxStatus::Failed)
        }),
{
    let started = s.with_batch_row(b, s.batches[b].with_status(BatchStatus::Submitting));
    assert(batch_fields_fit(s.batches[b]));
    crate::model::lemma_batch_row_wf(s, b, s.batches[b].with_status(BatchStatus::Submitting));
    crate::model::lemma_finished_wf(started, b, Some(send_tx_hash));
    crate::model::lemma_finished_wf(started, b, None);
    let included = started.finished(b, Some(send_tx_hash));
    let dropped = started.finished(b, None);
    assert forall|m: int| 0 <= m < s.batches[b].tx_hash_list.len() implies included.stored_in_state(
        #[trigger] s.batches[b].tx_hash_list[m],
        TxStatus::Settled,
    ) && dropped.stored_in_state(s.batches[b].tx_hash_list[m], TxStatus::Failed) by {
        assert(included.is_member(b, m));
        assert(dropped.is_member(b, m));
    }
}

} // verus!
