//! The part of the RPC surface that reaches the pool: each request as one
//! call on the pool, with the answer in the form that goes on the wire.

use vstd::prelude::*;
use crate::eth::{signed_tx_reading, ValidationError};
use crate::model::pool_batch::BatchStatus;
use crate::model::Pool;
use crate::service::pool::{
    first_received, get_pool_batch, member_payloads, proof_outcome_of,
    receive_proof_and_public_input, receive_tx, received_row, with_proof_offered,
    GetPoolBatchResponse, GetPoolBatchResponseView, ProofOutcome,
};
use crate::types::{words_view, H256, U256};

verus! {

/// The `type` member of a transaction request as it arrives.
pub enum TxTypeField {
    /// The request has no such member.
    Missing,
    /// The member is there and is not a string.
    NotText,
    /// The member is this string.
    Text(String),
}

/// What the `type` member of a transaction request is to be replaced by, if
/// by anything: the two-digit form of the short forms `0x0`, `0x1` and `0x2`,
/// and `0x00` where the member is missing or not a string. Any other string stays.
pub open spec fn normalized_type_of(field: TxTypeField) -> Option<Seq<char>> {
    match field {
        TxTypeField::Missing => Some("0x00"@),
        TxTypeField::NotText => Some("0x00"@),
        TxTypeField::Text(s) => if s@ == "0x0"@ {
            Some("0x00"@)
        } else if s@ == "0x1"@ {
            Some("0x01"@)
        } else if s@ == "0x2"@ {
            Some("0x02"@)
        } else {
            None
        },
    }
}

/// The replacement for the `type` member of a transaction request, if it needs one.
pub fn normalized_type(field: &TxTypeField) -> (r: Option<String>)
    ensures
        match r {
            Some(t) => normalized_type_of(*field) == Some(t@),
            None => normalized_type_of(*field) is None,
        },
{
    match field {
        TxTypeField::Missing => Some("0x00".to_string()),
        TxTypeField::NotText => Some("0x00".to_string()),
        TxTypeField::Text(s) => {
            if *s == "0x0".to_string() {
                Some("0x00".to_string())
            } else if *s == "0x1".to_string() {
                Some("0x01".to_string())
            } else if *s == "0x2".to_string() {
                Some("0x02".to_string())
            } else {
                None
            }
        },
    }
}

/// What a refused transaction is answered with.
pub open spec fn validation_message(e: ValidationError) -> Seq<char> {
    match e {
        ValidationError::Malformed => "malformed transaction"@,
        ValidationError::BadSignature => "signature recovery failed"@,
    }
}

/// The text of a refusal.
pub fn validation_error_message(e: ValidationError) -> (text: String)
    ensures
        text@ == validation_message(e),
{
    match e {
        ValidationError::Malformed => "malformed transaction".to_string(),
        ValidationError::BadSignature => "signature recovery failed".to_string(),
    }
}

/// The handler of the requests that reach the pool.
pub struct OpenRpcServerImpl;

impl OpenRpcServerImpl {
    /// Answers a raw signed transaction: with the operation id where it is
    /// taken in, with the text of the refusal where it is not.
    pub fn eth_send_raw_transaction(&self, pool: &mut Pool, raw_tx: Vec<u8>, now: i64) -> (r: Result<
        H256,
        String,
    >)
        requires
            old(pool)@.wf(),
        ensures
            final(pool)@.wf(),
            old(pool)@.leads_to(final(pool)@),
            match signed_tx_reading(raw_tx@) {
                Ok(tx) => r is Ok && r->Ok_0@ == tx.hash && final(pool)@ == old(pool)@.with_tx(
                    received_row(raw_tx@, tx, now as int),
                ),
                Err(e) => r is Err && r->Err_0@ == validation_message(e) && final(pool)@ == old(pool)@,
            },
    {
        match receive_tx(pool, raw_tx, now) {
            Ok(hash) => Ok(hash),
            Err(e) => Err(validation_error_message(e)),
        }
    }

    /// Answers a request for a batch to prove: see [`get_pool_batch`].
    pub fn zkp_get_pool_batch(&self, pool: &mut Pool) -> (r: Option<GetPoolBatchResponse>)
        requires
            old(pool)@.wf(),
        ensures
            final(pool)@.wf(),
            old(pool)@.leads_to(final(pool)@),
            match first_received(old(pool)@.batches) {
                Some(b) => r is Some && r->Some_0@ == (GetPoolBatchResponseView {
                    batch_hash: old(pool)@.batches[b].batch_hash,
                    tx_list: member_payloads(old(pool)@, old(pool)@.batches[b].tx_hash_list),
                    status: BatchStatus::Received,
                }) && final(pool)@ == old(pool)@.with_batch_row(
                    b,
                    old(pool)@.batches[b].with_status(BatchStatus::Locked),
                ),
                None => r is None && final(pool)@ == old(pool)@,
            },
    {
        get_pool_batch(pool)
    }

    /// Answers a proof for a batch with 1 where it is accepted and 0 where
    /// it is not: see [`receive_proof_and_public_input`].
    pub fn zkp_send_proof_and_public_inputs(
        &self,
        pool: &mut Pool,
        batch_hash: H256,
        zk_proof: Vec<u8>,
        zk_pub_inputs: Vec<U256>,
    ) -> (accepted: u64)
        requires
            old(pool)@.wf(),
        ensures
            final(pool)@.wf(),
            old(pool)@.leads_to(final(pool)@),
            accepted == if proof_outcome_of(old(pool)@, batch_hash@) == ProofOutcome::Accepted {
                1u64
            } else {
                0u64
            },
            final(pool)@ == with_proof_offered(
                old(pool)@,
                batch_hash@,
                zk_proof@,
                words_view(zk_pub_inputs@),
            ),
    {
        receive_proof_and_public_input(pool, &batch_hash, zk_proof, zk_pub_inputs)
    }
}

} // verus!
