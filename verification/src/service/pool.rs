//! Intake, batching, proof ingestion and settlement, each as one step on the pool.

use vstd::prelude::*;
use crate::abi::{
    copy_bytes, operation_views, shapes_of, takes_room, user_operations_from_tokens,
    user_operations_of, AbiShape, AbiType, ShapeError, UserOperation, UserOperationView,
};
use crate::eth::{
    abi_decode, abi_decoding, read_signed_tx, keccak256, keccak256_digest, rlp_encode_list,
    rlp_list_encoding, signed_tx_reading, SignedTxView, ValidationError,
};
use crate::model::pool_batch::{BatchStatus, PoolBatch, PoolBatchView};
use crate::model::pool_tx::{PoolTx, PoolTxView, TxStatus};
use crate::model::{
    batch_fields_fit, lemma_batch_index, lemma_batch_row_wf, lemma_finished_leads,
    lemma_batch_of, lemma_finished_wf, lemma_tx_index, lemma_with_batch_leads,
    lemma_with_batch_wf,
    lemma_with_tx_wf, member_state, member_status, Pool, PoolView,
};
use crate::service::fifo::{
    as_ints, before, fifo_pick, is_received, lemma_pick_len, oldest_received, received_count,
};
use crate::types::{hashes_view, words_view, H160, H256, U256};

verus! {

/// The row under which a decoded transaction is stored at time `now`.
pub open spec fn received_row(raw: Seq<u8>, tx: SignedTxView, now: int) -> PoolTxView {
    PoolTxView {
        tx: raw,
        tx_from: tx.from,
        tx_hash: tx.hash,
        created_at: now,
        status: TxStatus::Received,
    }
}

/// Takes in a raw signed transaction. Its sender is recovered from the
/// signature and its id is computed from its canonical encoding; nothing
/// that the client says of either is used. A transaction that cannot be
/// decoded, or whose signature gives no sender, is refused and the pool stays
/// as it is. Otherwise the id is returned, and the operation is stored unless
/// an operation with that id is stored already. It is stored as waiting; only
/// where a batch already has the id as a member (its operation was removed
/// from the pool and is offered anew) it is stored in the state that this
/// batch calls for, so that no operation is batched twice.
pub fn receive_tx(pool: &mut Pool, raw_tx: Vec<u8>, now: i64) -> (r: Result<H256, ValidationError>)
    requires
        old(pool)@.wf(),
    ensures
        final(pool)@.wf(),
        old(pool)@.leads_to(final(pool)@),
        match signed_tx_reading(raw_tx@) {
            Ok(tx) => r is Ok && r->Ok_0@ == tx.hash && final(pool)@ == old(pool)@.with_tx(
                received_row(raw_tx@, tx, now as int),
            ),
            Err(e) => r == Err::<H256, ValidationError>(e) && final(pool)@ == old(pool)@,
        },
{
    let tx = match read_signed_tx(&raw_tx) {
        Ok(tx) => tx,
        Err(e) => {
            return Err(e);
        },
    };
    let ghost row = received_row(raw_tx@, tx@, now as int);
    proof {
        lemma_with_tx_wf(pool@, row);
    }
    let hash = tx.hash;
    match pool.find_tx(&hash) {
        None => {
            let status = match pool.find_member(&hash) {
                Some(b) => {
                    proof {
                        let m = choose|m: int| #[trigger]
                            pool@.is_member(b as int, m) && pool@.member(b as int, m) == hash@;
                        lemma_batch_of(pool@, b as int, m);
                    }
                    member_state(pool.batch(b).status)
                },
                None => TxStatus::Received,
            };
            pool.push_tx(
                PoolTx { tx: raw_tx, tx_from: tx.from, tx_hash: hash, created_at: now, status },
            );
        },
        Some(i) => {
            assert(pool@.txs[i as int].tx_hash == hash@);
        },
    }
    Ok(hash)
}

/// Why a batching pass was abandoned.
#[derive(Clone, Copy, Debug, PartialEq, Eq, Structural)]
pub enum PoolError {
    /// The batch to be formed has no members, and a batch without members is
    /// stored already: the two would be one and the same batch.
    DuplicateBatch,
}

/// The id of the batch with these members: the Keccak-256 digest of the RLP
/// list of the member ids, in order.
pub open spec fn batch_hash_of(members: Seq<Seq<u8>>) -> Seq<u8> {
    keccak256_digest(rlp_list_encoding(members))
}

/// Whether one of the first `k` entries of `picked` is `i`.
spec fn in_prefix(picked: Seq<int>, k: int, i: int) -> bool {
    exists|m: int| 0 <= m < k && #[trigger] picked[m] == i
}

/// Locks the operations at the given positions.
fn lock_all(pool: &mut Pool, picked: &Vec<usize>)
    requires
        forall|k: int| 0 <= k < picked@.len() ==> (#[trigger] picked@[k]) < old(pool)@.txs.len(),
    ensures
        final(pool)@ == old(pool)@.with_locked(as_ints(picked@)),
{
    let ghost s = pool@;
    let ghost ps = as_ints(picked@);
    let mut k: usize = 0;
    while k < picked.len()
        invariant
            k <= picked@.len(),
            ps == as_ints(picked@),
            forall|k: int| 0 <= k < picked@.len() ==> (#[trigger] picked@[k]) < s.txs.len(),
            pool@.batches == s.batches,
            pool@.txs.len() == s.txs.len(),
            forall|i: int|
                0 <= i < s.txs.len() ==> #[trigger] pool@.txs[i] == if in_prefix(ps, k as int, i) {
                    s.txs[i].with_status(TxStatus::Locked)
                } else {
                    s.txs[i]
                },
        decreases picked@.len() - k,
    {
        let p = picked[k];
        let ghost cur = pool@;
        pool.set_tx_status(p, TxStatus::Locked);
        proof {
            assert(ps[k as int] == p);
            assert forall|i: int| 0 <= i < s.txs.len() implies #[trigger] pool@.txs[i] == if in_prefix(
                ps,
                k + 1,
                i,
            ) {
                s.txs[i].with_status(TxStatus::Locked)
            } else {
                s.txs[i]
            } by {
                if i == p {
                    assert(in_prefix(ps, k + 1, i));
                } else {
                    assert(pool@.txs[i] == cur.txs[i]);
                    if in_prefix(ps, k as int, i) {
                        let m = choose|m: int| 0 <= m < k && #[trigger] ps[m] == i;
                        assert(in_prefix(ps, k + 1, i));
                    }
                    if in_prefix(ps, k + 1, i) {
                        let m = choose|m: int| 0 <= m < k + 1 && #[trigger] ps[m] == i;
                        assert(m != k);
                        assert(in_prefix(ps, k as int, i));
                    }
                }
            }
        }
        k += 1;
    }
    proof {
        assert forall|i: int| 0 <= i < s.txs.len() implies in_prefix(ps, ps.len() as int, i)
            == ps.contains(i) by {
            if in_prefix(ps, ps.len() as int, i) {
                let m = choose|m: int| 0 <= m < ps.len() && #[trigger] ps[m] == i;
                assert(ps[m] == i);
            }
            if ps.contains(i) {
                let m = choose|m: int| 0 <= m < ps.len() && ps[m] == i;
                assert(ps[m] == i);
            }
        }
        assert(pool@.txs =~= s.with_locked(ps).txs);
    }
}

/// The ids of the operations at the given positions, in that order.
fn hashes_at(pool: &Pool, picked: &Vec<usize>) -> (members: Vec<H256>)
    requires
        forall|k: int| 0 <= k < picked@.len() ==> (#[trigger] picked@[k]) < pool@.txs.len(),
    ensures
        hashes_view(members@) == pool@.picked_hashes(as_ints(picked@)),
{
    let mut members: Vec<H256> = Vec::new();
    let mut k: usize = 0;
    while k < picked.len()
        invariant
            k <= picked@.len(),
            members@.len() == k,
            forall|k: int| 0 <= k < picked@.len() ==> (#[trigger] picked@[k]) < pool@.txs.len(),
            forall|m: int| 0 <= m < k ==> (#[trigger] members@[m])@ == pool@.txs[picked@[m] as int].tx_hash,
        decreases picked@.len() - k,
    {
        members.push(pool.tx(picked[k]).tx_hash);
        k += 1;
    }
    assert(hashes_view(members@) =~= pool@.picked_hashes(as_ints(picked@)));
    members
}

/// Whether a pass is barred from forming its batch: the batch would have no
/// members, and such a batch is stored already.
pub open spec fn pass_is_barred(s: PoolView, batch_size: nat) -> bool {
    batch_size == 0 && s.has_empty_batch()
}

/// The pool after one batching pass: with a batch of the `batch_size` oldest
/// waiting operations where that many wait and the pass is not barred, else
/// as it was.
pub open spec fn after_pass(s: PoolView, batch_size: nat, now: int) -> PoolView {
    let picked = fifo_pick(s.txs, batch_size);
    if picked.len() < batch_size || pass_is_barred(s, batch_size) {
        s
    } else {
        s.with_batch(picked, batch_hash_of(s.picked_hashes(picked)), now)
    }
}

/// One batching pass. The oldest waiting operations are read, at most
/// `batch_size` of them, oldest first. Fewer than `batch_size` leave the pool
/// as it is. Otherwise they are locked and a batch of them is stored, in that
/// order, under the id that their ids hash to, waiting for a proof. Only a
/// pass with `batch_size` zero can be abandoned: it forms the batch without
/// members once and is barred from forming it again. An unabandoned pass
/// returns how many operations it read.
pub fn batch_received_txs(pool: &mut Pool, batch_size: usize, now: i64) -> (r: Result<
    usize,
    PoolError,
>)
    requires
        old(pool)@.wf(),
    ensures
        final(pool)@.wf(),
        old(pool)@.leads_to(final(pool)@),
        final(pool)@ == after_pass(old(pool)@, batch_size as nat, now as int),
        r == if pass_is_barred(old(pool)@, batch_size as nat) {
            Err::<usize, PoolError>(PoolError::DuplicateBatch)
        } else if received_count(old(pool)@.txs) < batch_size {
            Ok::<usize, PoolError>(received_count(old(pool)@.txs) as usize)
        } else {
            Ok::<usize, PoolError>(batch_size)
        },
{
    let ghost s = pool@;
    let picked = oldest_received(pool, batch_size);
    let ghost ps = as_ints(picked@);
    proof {
        lemma_pick_len(s.txs, batch_size as nat, ps);
    }
    if picked.len() < batch_size {
        return Ok(picked.len());
    }
    proof {
        assert forall|k: int| 0 <= k < picked@.len() implies (#[trigger] picked@[k])
            < s.txs.len() by {
            assert(is_received(s.txs, ps[k]));
        }
    }
    if batch_size == 0 && pool.has_empty_batch() {
        return Err(PoolError::DuplicateBatch);
    }
    let members = hashes_at(pool, &picked);
    let encoded = rlp_encode_list(&members);
    let batch_hash = keccak256(&encoded);
    lock_all(pool, &picked);
    pool.push_batch(
        PoolBatch {
            batch_hash,
            tx_hash_list: members,
            zk_proof: None,
            zk_pub_inputs: None,
            send_tx_hash: None,
            created_at: now,
            status: BatchStatus::Received,
        },
    );
    proof {
        assert(pool@.batches == s.batches.push(s.new_batch(ps, batch_hash@, now as int)));
        assert(pool@ == s.with_batch(ps, batch_hash@, now as int));
        assert forall|k: int| 0 <= k < ps.len() implies 0 <= (#[trigger] ps[k]) < s.txs.len()
            && s.txs[ps[k]].status == TxStatus::Received by {
            assert(is_received(s.txs, ps[k]));
        }
        assert forall|k: int, l: int| 0 <= k < l < ps.len() implies (#[trigger] ps[k]) != (
        #[trigger] ps[l]) by {
            assert(before(s.txs, ps[k], ps[l]));
        }
        lemma_with_batch_wf(s, ps, batch_hash@, now as int);
        lemma_with_batch_leads(s, ps, batch_hash@, now as int);
    }
    Ok(picked.len())
}

/// What a prover is handed: a batch's id, the signed transactions of its
/// members in member order, and the state in which the batch was found.
pub struct GetPoolBatchResponse {
    pub batch_hash: H256,
    pub tx_list: Vec<Vec<u8>>,
    pub status: BatchStatus,
}

/// The mathematical content of a [`GetPoolBatchResponse`].
pub ghost struct GetPoolBatchResponseView {
    pub batch_hash: Seq<u8>,
    pub tx_list: Seq<Seq<u8>>,
    pub status: BatchStatus,
}

/// The views of a list of byte strings, in order.
pub open spec fn payloads_view(list: Seq<Vec<u8>>) -> Seq<Seq<u8>> {
    Seq::new(list.len(), |m: int| list[m]@)
}

impl View for GetPoolBatchResponse {
    type V = GetPoolBatchResponseView;

    open spec fn view(&self) -> GetPoolBatchResponseView {
        GetPoolBatchResponseView {
            batch_hash: self.batch_hash@,
            tx_list: payloads_view(self.tx_list@),
            status: self.status,
        }
    }
}

/// Whether the batch at `b` waits for a proof and none before it does.
pub open spec fn is_first_received(batches: Seq<PoolBatchView>, b: int) -> bool {
    &&& 0 <= b < batches.len()
    &&& batches[b].status == BatchStatus::Received
    &&& forall|k: int| 0 <= k < b ==> (#[trigger] batches[k]).status != BatchStatus::Received
}

/// The position of the first batch that waits for a proof, if there is one.
pub open spec fn first_received(batches: Seq<PoolBatchView>) -> Option<int> {
    if exists|b: int| is_first_received(batches, b) {
        Some(choose|b: int| is_first_received(batches, b))
    } else {
        None
    }
}

/// The signed transactions of those of the first `n` ids of a list whose
/// operations are stored, in the order of the list.
pub open spec fn stored_payloads(s: PoolView, list: Seq<Seq<u8>>, n: nat) -> Seq<Seq<u8>>
    decreases n,
{
    if n == 0 {
        Seq::empty()
    } else {
        let before = stored_payloads(s, list, (n - 1) as nat);
        if s.has_tx(list[n - 1]) {
            before.push(s.txs[s.tx_index(list[n - 1])].tx)
        } else {
            before
        }
    }
}

/// The signed transactions of the members of a list whose operations are
/// stored, in member order.
pub open spec fn member_payloads(s: PoolView, list: Seq<Seq<u8>>) -> Seq<Seq<u8>> {
    stored_payloads(s, list, list.len())
}

/// Hands out the first batch that waits for a proof: the batch becomes
/// `Locked`, and its id, its members' signed transactions in member order and
/// the state it was found in are returned. A member whose operation is no
/// longer stored adds no transaction. Without such a batch nothing
/// changes and nothing is returned.
pub fn get_pool_batch(pool: &mut Pool) -> (r: Option<GetPoolBatchResponse>)
    requires
        old(pool)@.wf(),
    ensures
        final(pool)@.wf(),
        old(pool)@.leads_to(final(pool)@),
        match first_received(old(pool)@.batches) {
            Some(b) => r is Some && r->Some_0@ == (GetPoolBatchResponseView {
                batch_hash: old(pool)@.batches[b].batch_hash,
                tx_list: member_payloads(old(pool)@, old(pool)@.batches[b].tx_hash_list),
                status: BatchStatus::Received,
            }) && final(pool)@ == old(pool)@.with_batch_row(
                b,
                old(pool)@.batches[b].with_status(BatchStatus::Locked),
            ),
            None => r is None && final(pool)@ == old(pool)@,
        },
{
    let ghost s = pool@;
    let n = pool.batch_count();
    let mut b: usize = 0;
    let mut found = false;
    while b < n && !found
        invariant
            b <= n,
            n == s.batches.len(),
            pool@ == s,
            forall|k: int| 0 <= k < b ==> (#[trigger] s.batches[k]).status != BatchStatus::Received,
            found ==> b < n && s.batches[b as int].status == BatchStatus::Received,
        decreases n - b, (if found { 0int } else { 1int }),
    {
        let waiting = match pool.batch(b).status {
            BatchStatus::Received => true,
            _ => false,
        };
        if waiting {
            found = true;
        } else {
            b += 1;
        }
    }
    if !found {
        assert forall|c: int| !is_first_received(s.batches, c) by {
            if 0 <= c < s.batches.len() {
                assert(s.batches[c].status != BatchStatus::Received);
            }
        }
        return None;
    }
    proof {
        assert(is_first_received(s.batches, b as int));
        let c = choose|c: int| is_first_received(s.batches, c);
        if c < b {
            assert(s.batches[c].status != BatchStatus::Received);
        }
        if b < c {
            assert(s.batches[b as int].status != BatchStatus::Received);
        }
        assert(first_received(s.batches) == Some(b as int));
    }
    let ghost list = s.batches[b as int].tx_hash_list;
    let batch_hash = pool.batch(b).batch_hash;
    let members = pool.batch(b).tx_hash_list.len();
    let mut tx_list: Vec<Vec<u8>> = Vec::new();
    let mut m: usize = 0;
    assert(payloads_view(tx_list@) =~= stored_payloads(s, list, 0));
    while m < members
        invariant
            m <= members,
            members == list.len(),
            b < s.batches.len(),
            list == s.batches[b as int].tx_hash_list,
            pool@ == s,
            s.wf(),
            payloads_view(tx_list@) == stored_payloads(s, list, m as nat),
        decreases members - m,
    {
        let hash = pool.batch(b).tx_hash_list[m];
        assert(hash@ == list[m as int]);
        let ghost before = payloads_view(tx_list@);
        match pool.find_tx(&hash) {
            Some(i) => {
                proof {
                    lemma_tx_index(s, i as int);
                }
                tx_list.push(copy_bytes(&pool.tx(i).tx));
                assert(payloads_view(tx_list@) =~= before.push(s.txs[i as int].tx));
            },
            None => {},
        }
        m += 1;
    }
    pool.set_batch_status(b, BatchStatus::Locked);
    proof {
        assert(batch_fields_fit(s.batches[b as int]));
        lemma_batch_row_wf(s, b as int, s.batches[b as int].with_status(BatchStatus::Locked));
    }
    Some(GetPoolBatchResponse { batch_hash, tx_list, status: BatchStatus::Received })
}

/// What became of a proof that was offered for a batch.
#[derive(Clone, Copy, Debug, PartialEq, Eq, Structural)]
pub enum ProofOutcome {
    /// The proof is recorded and the settlement of the batch is due.
    Accepted,
    /// No batch with the given id is stored.
    NotFound,
    /// The batch has a proof already.
    AlreadyProven,
    /// The batch is past taking a proof and has none.
    WrongState,
}

/// What becomes of a proof that is offered for the batch with the given id.
pub open spec fn proof_outcome_of(s: PoolView, batch_hash: Seq<u8>) -> ProofOutcome {
    if !s.has_batch(batch_hash) {
        ProofOutcome::NotFound
    } else {
        let row = s.batches[s.batch_index(batch_hash)];
        if row.status.accepts_proof() {
            ProofOutcome::Accepted
        } else if row.zk_proof is Some {
            ProofOutcome::AlreadyProven
        } else {
            ProofOutcome::WrongState
        }
    }
}

/// The pool after a proof is offered for the batch with the given id: the
/// proof and its inputs are recorded and the batch is `ProofSubmitted` where
/// the proof is accepted; nothing changes where it is not.
pub open spec fn with_proof_offered(
    s: PoolView,
    batch_hash: Seq<u8>,
    zk_proof: Seq<u8>,
    zk_pub_inputs: Seq<Seq<u64>>,
) -> PoolView {
    if proof_outcome_of(s, batch_hash) == ProofOutcome::Accepted {
        let b = s.batch_index(batch_hash);
        s.with_batch_row(b, s.batches[b].with_proof(zk_proof, zk_pub_inputs))
    } else {
        s
    }
}

/// Takes a proof and its public inputs for the batch with the given id. They
/// are recorded, and the batch becomes `ProofSubmitted`, exactly where such a
/// batch is stored and is `Received` or `Locked`; the settlement of the batch
/// is then due. In every other case nothing changes, and the outcome names
/// the cause.
pub fn submit_proof(
    pool: &mut Pool,
    batch_hash: &H256,
    zk_proof: Vec<u8>,
    zk_pub_inputs: Vec<U256>,
) -> (outcome: ProofOutcome)
    requires
        old(pool)@.wf(),
    ensures
        final(pool)@.wf(),
        old(pool)@.leads_to(final(pool)@),
        outcome == proof_outcome_of(old(pool)@, batch_hash@),
        final(pool)@ == with_proof_offered(
            old(pool)@,
            batch_hash@,
            zk_proof@,
            words_view(zk_pub_inputs@),
        ),
{
    let ghost s = pool@;
    let b = match pool.find_batch(batch_hash) {
        Some(b) => b,
        None => {
            return ProofOutcome::NotFound;
        },
    };
    proof {
        lemma_batch_index(s, b as int, batch_hash@);
    }
    let eligible = match pool.batch(b).status {
        BatchStatus::Received => true,
        BatchStatus::Locked => true,
        _ => false,
    };
    if !eligible {
        return if pool.batch(b).zk_proof.is_some() {
            ProofOutcome::AlreadyProven
        } else {
            ProofOutcome::WrongState
        };
    }
    proof {
        assert(batch_fields_fit(s.batches[b as int]));
        lemma_batch_row_wf(
            s,
            b as int,
            s.batches[b as int].with_proof(zk_proof@, words_view(zk_pub_inputs@)),
        );
    }
    pool.set_batch_proof(b, zk_proof, zk_pub_inputs);
    ProofOutcome::Accepted
}

/// Takes a proof as [`submit_proof`] does and answers in the form that goes
/// on the wire: 1 where the proof is accepted, 0 where it is not.
pub fn receive_proof_and_public_input(
    pool: &mut Pool,
    batch_hash: &H256,
    zk_proof: Vec<u8>,
    zk_pub_inputs: Vec<U256>,
) -> (accepted: u64)
    requires
        old(pool)@.wf(),
    ensures
        final(pool)@.wf(),
        old(pool)@.leads_to(final(pool)@),
        accepted == if proof_outcome_of(old(pool)@, batch_hash@) == ProofOutcome::Accepted {
            1u64
        } else {
            0u64
        },
        final(pool)@ == with_proof_offered(
            old(pool)@,
            batch_hash@,
            zk_proof@,
            words_view(zk_pub_inputs@),
        ),
{
    match submit_proof(pool, batch_hash, zk_proof, zk_pub_inputs) {
        ProofOutcome::Accepted => 1,
        _ => 0,
    }
}

/// Why a settlement did not go ahead.
#[derive(Clone, Copy, Debug, PartialEq, Eq, Structural)]
pub enum SettlementError {
    /// No batch with the given id is stored.
    UnknownBatch,
    /// The batch is not in the state that this step starts from.
    WrongState,
    /// A member's stored transaction could not be decoded anew.
    Payload(ValidationError),
    /// A member's call data is shorter than a selector.
    CallData,
    /// A member's call data does not decode as the arguments of a settlement call.
    Arguments,
    /// The decoded arguments do not carry user operations.
    Shape(ShapeError),
    /// The batch has a proof but no public input.
    NoPublicInput,
}

/// The settlement call for one batch: what the entry point's `handleOps` is given.
pub struct HandleOpsCall {
    /// The user operations of all members, in member order.
    pub ops: Vec<UserOperation>,
    pub proof: Vec<u8>,
    /// The first public input of the proof.
    pub pub_signals: [U256; 1],
    /// Who receives the settlement fee.
    pub beneficiary: H160,
}

/// The mathematical content of a [`HandleOpsCall`].
pub ghost struct HandleOpsCallView {
    pub ops: Seq<UserOperationView>,
    pub proof: Seq<u8>,
    pub pub_signals: Seq<Seq<u64>>,
    pub beneficiary: Seq<u8>,
}

impl View for HandleOpsCall {
    type V = HandleOpsCallView;

    open spec fn view(&self) -> HandleOpsCallView {
        HandleOpsCallView {
            ops: operation_views(self.ops@),
            proof: self.proof@,
            pub_signals: words_view(self.pub_signals@),
            beneficiary: self.beneficiary@,
        }
    }
}

/// The shape of a user operation: an address, a quantity, two byte strings,
/// five quantities and two byte strings.
pub open spec fn user_operation_shape() -> AbiShape {
    AbiShape::Tuple(
        seq![
            AbiShape::Address,
            AbiShape::Uint(256),
            AbiShape::Bytes,
            AbiShape::Bytes,
            AbiShape::Uint(256),
            AbiShape::Uint(256),
            AbiShape::Uint(256),
            AbiShape::Uint(256),
            AbiShape::Uint(256),
            AbiShape::Bytes,
            AbiShape::Bytes,
        ],
    )
}

/// The shapes of the arguments of a settlement call: the operations, the
/// proof, one public input and the beneficiary.
pub open spec fn handle_ops_shapes() -> Seq<AbiShape> {
    seq![
        AbiShape::Array(Box::new(user_operation_shape())),
        AbiShape::Bytes,
        AbiShape::FixedArray(Box::new(AbiShape::Uint(256)), 1),
        AbiShape::Address,
    ]
}

/// Every argument of a settlement call takes up room in its encoding.
pub proof fn lemma_handle_ops_shapes_take_room()
    ensures
        forall|i: int|
            0 <= i < handle_ops_shapes().len() ==> takes_room(#[trigger] handle_ops_shapes()[i]),
{
    reveal_with_fuel(takes_room, 4);
    let fields = user_operation_shape()->Tuple_0;
    assert forall|i: int| 0 <= i < fields.len() implies takes_room(#[trigger] fields[i]) by {}
    assert(takes_room(user_operation_shape()));
    assert(takes_room(handle_ops_shapes()[0]));
    assert(takes_room(handle_ops_shapes()[1]));
    assert(takes_room(handle_ops_shapes()[2]));
    assert(takes_room(handle_ops_shapes()[3]));
}

/// The argument types of a settlement call.
pub fn handle_ops_params() -> (types: Vec<AbiType>)
    ensures
        shapes_of(types@) == handle_ops_shapes(),
        forall|i: int| 0 <= i < types@.len() ==> takes_room(#[trigger] shapes_of(types@)[i]),
{
    let mut fields: Vec<AbiType> = Vec::new();
    fields.push(AbiType::Address);
    fields.push(AbiType::Uint(256));
    fields.push(AbiType::Bytes);
    fields.push(AbiType::Bytes);
    fields.push(AbiType::Uint(256));
    fields.push(AbiType::Uint(256));
    fields.push(AbiType::Uint(256));
    fields.push(AbiType::Uint(256));
    fields.push(AbiType::Uint(256));
    fields.push(AbiType::Bytes);
    fields.push(AbiType::Bytes);
    let ghost fs = fields@;
    let tuple = AbiType::Tuple(fields);
    proof {
        reveal_with_fuel(crate::abi::shape_of, 3);
        assert(crate::abi::shape_of(tuple)->Tuple_0 =~= user_operation_shape()->Tuple_0);
    }
    let mut types: Vec<AbiType> = Vec::new();
    types.push(AbiType::Array(Box::new(tuple)));
    types.push(AbiType::Bytes);
    types.push(AbiType::FixedArray(Box::new(AbiType::Uint(256)), 1));
    types.push(AbiType::Address);
    proof {
        reveal_with_fuel(crate::abi::shape_of, 3);
        assert(shapes_of(types@) =~= handle_ops_shapes());
        lemma_handle_ops_shapes_take_room();
    }
    types
}

/// The user operations that a transaction's call data carries: what follows
/// the four-byte selector, decoded as the arguments of a settlement call.
pub open spec fn call_data_ops(input: Seq<u8>) -> Result<Seq<UserOperationView>, SettlementError> {
    if input.len() < 4 {
        Err(SettlementError::CallData)
    } else {
        match abi_decoding(handle_ops_shapes(), input.skip(4)) {
            None => Err(SettlementError::Arguments),
            Some(tokens) => match user_operations_of(tokens) {
                Ok(ops) => Ok(ops),
                Err(e) => Err(SettlementError::Shape(e)),
            },
        }
    }
}

/// The user operations that a stored signed transaction carries.
pub open spec fn payload_ops(raw: Seq<u8>) -> Result<Seq<UserOperationView>, SettlementError> {
    match signed_tx_reading(raw) {
        Err(e) => Err(SettlementError::Payload(e)),
        Ok(tx) => call_data_ops(tx.input),
    }
}

/// The user operations of the member with the given id; none where no such
/// operation is stored.
pub open spec fn member_ops(s: PoolView, hash: Seq<u8>) -> Result<
    Seq<UserOperationView>,
    SettlementError,
> {
    if s.has_tx(hash) {
        payload_ops(s.txs[s.tx_index(hash)].tx)
    } else {
        Ok(Seq::empty())
    }
}

/// The user operations of the first `n` members of a list, one member's after
/// another's; the first member that fails decides the error.
pub open spec fn flattened_ops(s: PoolView, list: Seq<Seq<u8>>, n: nat) -> Result<
    Seq<UserOperationView>,
    SettlementError,
>
    decreases n,
{
    if n == 0 {
        Ok(Seq::empty())
    } else {
        match flattened_ops(s, list, (n - 1) as nat) {
            Err(e) => Err(e),
            Ok(before) => match member_ops(s, list[n - 1]) {
                Err(e) => Err(e),
                Ok(ops) => Ok(before + ops),
            },
        }
    }
}

/// The settlement call for the batch at position `b`, which has a proof: the
/// flattened user operations of its members, its proof, its first public
/// input and the beneficiary.
pub open spec fn settlement_call(s: PoolView, b: int, beneficiary: Seq<u8>) -> Result<
    HandleOpsCallView,
    SettlementError,
> {
    let row = s.batches[b];
    match flattened_ops(s, row.tx_hash_list, row.tx_hash_list.len()) {
        Err(e) => Err(e),
        Ok(ops) => if row.zk_pub_inputs->Some_0.len() == 0 {
            Err(SettlementError::NoPublicInput)
        } else {
            Ok(
                HandleOpsCallView {
                    ops,
                    proof: row.zk_proof->Some_0,
                    pub_signals: seq![row.zk_pub_inputs->Some_0[0]],
                    beneficiary,
                },
            )
        },
    }
}

/// Reads the user operations out of a transaction's call data.
pub fn user_operations_from_call_data(input: &Vec<u8>) -> (r: Result<
    Vec<UserOperation>,
    SettlementError,
>)
    ensures
        match r {
            Ok(ops) => call_data_ops(input@) == Ok::<Seq<UserOperationView>, SettlementError>(
                operation_views(ops@),
            ),
            Err(e) => call_data_ops(input@) == Err::<Seq<UserOperationView>, SettlementError>(e),
        },
{
    if input.len() < 4 {
        return Err(SettlementError::CallData);
    }
    let mut arguments: Vec<u8> = Vec::new();
    let mut i: usize = 4;
    while i < input.len()
        invariant
            4 <= i <= input@.len(),
            arguments@ == input@.subrange(4, i as int),
        decreases input@.len() - i,
    {
        arguments.push(input[i]);
        i += 1;
        assert(arguments@ =~= input@.subrange(4, i as int));
    }
    assert(arguments@ =~= input@.skip(4));
    let types = handle_ops_params();
    let tokens = match abi_decode(&types, &arguments) {
        Some(tokens) => tokens,
        None => {
            return Err(SettlementError::Arguments);
        },
    };
    match user_operations_from_tokens(&tokens) {
        Ok(ops) => Ok(ops),
        Err(e) => Err(SettlementError::Shape(e)),
    }
}

/// Builds the settlement call for the batch at position `b`.
fn build_call(pool: &Pool, b: usize, beneficiary: H160) -> (r: Result<HandleOpsCall, SettlementError>)
    requires
        pool@.wf(),
        b < pool@.batches.len(),
        pool@.batches[b as int].zk_proof is Some,
        pool@.batches[b as int].zk_pub_inputs is Some,
    ensures
        match r {
            Ok(call) => settlement_call(pool@, b as int, beneficiary@) == Ok::<
                HandleOpsCallView,
                SettlementError,
            >(call@),
            Err(e) => settlement_call(pool@, b as int, beneficiary@) == Err::<
                HandleOpsCallView,
                SettlementError,
            >(e),
        },
{
    let ghost s = pool@;
    let row = pool.batch(b);
    let ghost list = s.batches[b as int].tx_hash_list;
    let mut ops: Vec<UserOperation> = Vec::new();
    let mut m: usize = 0;
    assert(operation_views(ops@) =~= Seq::<UserOperationView>::empty());
    while m < row.tx_hash_list.len()
        invariant
            m <= row.tx_hash_list@.len(),
            b < s.batches.len(),
            row@ == s.batches[b as int],
            list == row@.tx_hash_list,
            list.len() == row.tx_hash_list@.len(),
            s == pool@,
            s.wf(),
            flattened_ops(s, list, m as nat) == Ok::<Seq<UserOperationView>, SettlementError>(
                operation_views(ops@),
            ),
        decreases row.tx_hash_list@.len() - m,
    {
        let hash = row.tx_hash_list[m];
        assert(hash@ == list[m as int]);
        let ghost before = operation_views(ops@);
        match pool.find_tx(&hash) {
            None => {
                assert(operation_views(ops@) + Seq::<UserOperationView>::empty() =~= operation_views(
                    ops@,
                ));
            },
            Some(i) => {
                proof {
                    lemma_tx_index(s, i as int);
                }
                let tx = match read_signed_tx(&pool.tx(i).tx) {
                    Ok(tx) => tx,
                    Err(e) => {
                        proof {
                            lemma_flattened_error(s, list, (m + 1) as nat, list.len());
                        }
                        return Err(SettlementError::Payload(e));
                    },
                };
                let mut found = match user_operations_from_call_data(&tx.input) {
                    Ok(found) => found,
                    Err(e) => {
                        proof {
                            lemma_flattened_error(s, list, (m + 1) as nat, list.len());
                        }
                        return Err(e);
                    },
                };
                let ghost added = operation_views(found@);
                ops.append(&mut found);
                assert(operation_views(ops@) =~= before + added);
            },
        }
        m += 1;
    }
    let inputs = match &row.zk_pub_inputs {
        Some(inputs) => inputs,
        None => {
            return Err(SettlementError::NoPublicInput);
        },
    };
    if inputs.len() == 0 {
        return Err(SettlementError::NoPublicInput);
    }
    let proof_bytes = match &row.zk_proof {
        Some(p) => copy_bytes(p),
        None => Vec::new(),
    };
    let call = HandleOpsCall { ops, proof: proof_bytes, pub_signals: [inputs[0]], beneficiary };
    assert(call@.pub_signals =~= seq![row@.zk_pub_inputs->Some_0[0]]);
    Ok(call)
}

/// Once a prefix of the members fails, every longer prefix fails in the same way.
proof fn lemma_flattened_error(s: PoolView, list: Seq<Seq<u8>>, n: nat, total: nat)
    requires
        flattened_ops(s, list, n) is Err,
        n <= total,
    ensures
        flattened_ops(s, list, total) == flattened_ops(s, list, n),
    decreases total,
{
    if n < total {
        lemma_flattened_error(s, list, n, (total - 1) as nat);
    }
}

/// Moves every stored operation whose id is a member of the batch at
/// position `b` to `status`.
fn set_members_status(pool: &mut Pool, b: usize, status: TxStatus)
    requires
        old(pool)@.wf(),
        b < old(pool)@.batches.len(),
    ensures
        final(pool)@ == old(pool)@.with_members_in(old(pool)@.batches[b as int].tx_hash_list, status),
{
    let ghost s = pool@;
    let ghost list = s.batches[b as int].tx_hash_list;
    let members = pool.batch(b).tx_hash_list.len();
    let mut m: usize = 0;
    while m < members
        invariant
            m <= members,
            members == list.len(),
            b < s.batches.len(),
            list == s.batches[b as int].tx_hash_list,
            s.wf(),
            pool@.batches == s.batches,
            pool@.txs.len() == s.txs.len(),
            forall|i: int|
                0 <= i < s.txs.len() ==> #[trigger] pool@.txs[i] == if in_list_prefix(
                    list,
                    m as int,
                    s.txs[i].tx_hash,
                ) {
                    s.txs[i].with_status(status)
                } else {
                    s.txs[i]
                },
        decreases members - m,
    {
        let hash = pool.batch(b).tx_hash_list[m];
        assert(hash@ == list[m as int]);
        let ghost cur = pool@;
        let found = pool.find_tx(&hash);
        match found {
            Some(i) => {
                pool.set_tx_status(i, status);
            },
            None => {},
        }
        proof {
            assert forall|i: int| 0 <= i < s.txs.len() implies #[trigger] pool@.txs[i]
                == if in_list_prefix(list, m + 1, s.txs[i].tx_hash) {
                s.txs[i].with_status(status)
            } else {
                s.txs[i]
            } by {
                let h = s.txs[i].tx_hash;
                assert(cur.txs[i].tx_hash == h);
                if in_list_prefix(list, m as int, h) {
                    let k = choose|k: int| 0 <= k < m && #[trigger] list[k] == h;
                    assert(in_list_prefix(list, m + 1, h));
                }
                if h == list[m as int] {
                    assert(in_list_prefix(list, m + 1, h));
                    assert(found is Some);
                    let f = found->Some_0 as int;
                    assert(cur.txs[f].tx_hash == h);
                    assert(s.txs[f].tx_hash == h);
                    if f < i {
                        assert(s.txs[f].tx_hash != s.txs[i].tx_hash);
                    } else if i < f {
                        assert(s.txs[i].tx_hash != s.txs[f].tx_hash);
                    }
                } else {
                    if found is Some {
                        assert(s.txs[found->Some_0 as int].tx_hash == list[m as int]);
                    }
                    assert(pool@.txs[i] == cur.txs[i]);
                    if in_list_prefix(list, m + 1, h) {
                        let k = choose|k: int| 0 <= k < m + 1 && #[trigger] list[k] == h;
                        assert(k != m);
                        assert(in_list_prefix(list, m as int, h));
                    }
                }
            }
        }
        m += 1;
    }
    proof {
        assert forall|i: int| 0 <= i < s.txs.len() implies in_list_prefix(
            list,
            list.len() as int,
            s.txs[i].tx_hash,
        ) == list.contains(s.txs[i].tx_hash) by {
            let h = s.txs[i].tx_hash;
            if in_list_prefix(list, list.len() as int, h) {
                let k = choose|k: int| 0 <= k < list.len() && #[trigger] list[k] == h;
                assert(list[k] == h);
            }
            if list.contains(h) {
                let k = choose|k: int| 0 <= k < list.len() && list[k] == h;
                assert(list[k] == h);
            }
        }
        assert(pool@.txs =~= s.with_members_in(list, status).txs);
    }
}

/// Whether one of the first `m` entries of `list` is `hash`.
spec fn in_list_prefix(list: Seq<Seq<u8>>, m: int, hash: Seq<u8>) -> bool {
    exists|k: int| 0 <= k < m && #[trigger] list[k] == hash
}

/// The view of an optional hash.
pub open spec fn receipt_view(receipt: Option<H256>) -> Option<Seq<u8>> {
    match receipt {
        Some(h) => Some(h@),
        None => None,
    }
}

/// Ends the settlement of the batch at position `b`.
fn finish(pool: &mut Pool, b: usize, receipt: Option<H256>)
    requires
        old(pool)@.wf(),
        b < old(pool)@.batches.len(),
        !old(pool)@.batches[b as int].status.is_terminal(),
        receipt is Some ==> old(pool)@.batches[b as int].zk_proof is Some,
    ensures
        final(pool)@ == old(pool)@.finished(b as int, receipt_view(receipt)),
        final(pool)@.wf(),
        old(pool)@.leads_to(final(pool)@),
{
    let ghost s = pool@;
    proof {
        lemma_finished_wf(s, b as int, receipt_view(receipt));
        lemma_finished_leads(s, b as int, receipt_view(receipt));
    }
    match receipt {
        Some(h) => {
            set_members_status(pool, b, TxStatus::Settled);
            pool.set_batch_receipt(b, h);
        },
        None => {
            set_members_status(pool, b, TxStatus::Failed);
            pool.set_batch_status(b, BatchStatus::Failed);
        },
    }
}

/// Starts the settlement of the batch with the given id, which must be
/// `ProofSubmitted`; for any other batch, or none, nothing changes and the
/// error says which. The stored transaction of each member is decoded anew
/// and the user operations in its call data are read; a member that is not
/// stored adds none. Where all members decode and the batch has a public
/// input, the batch becomes `Submitting` and the settlement call is returned.
/// Otherwise the batch and its members become `Failed` and the error names
/// the first cause.
pub fn handle_ops(pool: &mut Pool, batch_hash: &H256, beneficiary: H160) -> (r: Result<
    HandleOpsCall,
    SettlementError,
>)
    requires
        old(pool)@.wf(),
    ensures
        final(pool)@.wf(),
        old(pool)@.leads_to(final(pool)@),
        ({
            let s = old(pool)@;
            let b = s.batch_index(batch_hash@);
            if !s.has_batch(batch_hash@) {
                r is Err && r->Err_0 == SettlementError::UnknownBatch && final(pool)@ == s
            } else if s.batches[b].status != BatchStatus::ProofSubmitted {
                r is Err && r->Err_0 == SettlementError::WrongState && final(pool)@ == s
            } else {
                match settlement_call(s, b, beneficiary@) {
                    Ok(call) => r is Ok && r->Ok_0@ == call && final(pool)@ == s.with_batch_row(
                        b,
                        s.batches[b].with_status(BatchStatus::Submitting),
                    ),
                    Err(e) => r is Err && r->Err_0 == e && final(pool)@ == s.finished(b, None),
                }
            }
        }),
{
    let ghost s = pool@;
    let b = match pool.find_batch(batch_hash) {
        Some(b) => b,
        None => {
            return Err(SettlementError::UnknownBatch);
        },
    };
    proof {
        lemma_batch_index(s, b as int, batch_hash@);
        assert(batch_fields_fit(s.batches[b as int]));
    }
    let ready = match pool.batch(b).status {
        BatchStatus::ProofSubmitted => true,
        _ => false,
    };
    if !ready {
        return Err(SettlementError::WrongState);
    }
    match build_call(pool, b, beneficiary) {
        Ok(call) => {
            proof {
                lemma_batch_row_wf(
                    s,
                    b as int,
                    s.batches[b as int].with_status(BatchStatus::Submitting),
                );
            }
            pool.set_batch_status(b, BatchStatus::Submitting);
            Ok(call)
        },
        Err(e) => {
            finish(pool, b, None);
            Err(e)
        },
    }
}

/// Whether the settlement of a batch in this state can be ended, with a
/// receipt or without one.
pub open spec fn can_end(status: BatchStatus, with_receipt: bool) -> bool {
    status == BatchStatus::Submitting || (status == BatchStatus::ProofSubmitted && !with_receipt)
}

/// Ends the settlement of the batch with the given id. With the id of the
/// included settlement transaction the batch, which must be `Submitting`,
/// becomes `Succeeded`, records that id, and its stored members become
/// `Settled`. Without one the batch, which must be `Submitting` or, where
/// the call could not even be sent, `ProofSubmitted`, becomes `Failed` with its
/// stored members, and no id is recorded. For any other batch, or none,
/// nothing changes and the error says which. The state that the batch ends
/// in is returned.
pub fn complete_handle_ops(pool: &mut Pool, batch_hash: &H256, receipt: Option<H256>) -> (r: Result<
    BatchStatus,
    SettlementError,
>)
    requires
        old(pool)@.wf(),
    ensures
        final(pool)@.wf(),
        old(pool)@.leads_to(final(pool)@),
        ({
            let s = old(pool)@;
            let b = s.batch_index(batch_hash@);
            if !s.has_batch(batch_hash@) {
                r == Err::<BatchStatus, SettlementError>(SettlementError::UnknownBatch) && final(pool)@ == s
            } else if !can_end(s.batches[b].status, receipt is Some) {
                r == Err::<BatchStatus, SettlementError>(SettlementError::WrongState) && final(pool)@ == s
            } else {
                final(pool)@ == s.finished(b, receipt_view(receipt)) && r == Ok::<
                    BatchStatus,
                    SettlementError,
                >(if receipt is Some { BatchStatus::Succeeded } else { BatchStatus::Failed })
            }
        }),
{
    let ghost s = pool@;
    let b = match pool.find_batch(batch_hash) {
        Some(b) => b,
        None => {
            return Err(SettlementError::UnknownBatch);
        },
    };
    proof {
        lemma_batch_index(s, b as int, batch_hash@);
        assert(batch_fields_fit(s.batches[b as int]));
    }
    let ready = match pool.batch(b).status {
        BatchStatus::Submitting => true,
        BatchStatus::ProofSubmitted => receipt.is_none(),
        _ => false,
    };
    if !ready {
        return Err(SettlementError::WrongState);
    }
    finish(pool, b, receipt);
    match receipt {
        Some(_) => Ok(BatchStatus::Succeeded),
        None => Ok(BatchStatus::Failed),
    }
}

} // verus!
