//! One batch of operations and its lifecycle state.

use vstd::prelude::*;
use crate::types::{hashes_view, words_view, H256, U256};

verus! {

/// Where a batch stands. It only moves forward: `Received`, `Locked`,
/// `ProofSubmitted`, `Submitting`, then `Succeeded`; `Failed` is reached from
/// any state but `Succeeded`.
#[derive(Clone, Copy, Debug, PartialEq, Eq, Structural)]
pub enum BatchStatus {
    /// Formed and waiting for a proof.
    Received,
    /// Handed out to a prover.
    Locked,
    /// A proof and its public inputs are recorded.
    ProofSubmitted,
    /// The settlement call is under way.
    Submitting,
    /// Settled on chain.
    Succeeded,
    /// Settlement failed.
    Failed,
}

impl BatchStatus {
    /// Whether no further transition leaves this state.
    pub open spec fn is_terminal(self) -> bool {
        self == BatchStatus::Succeeded || self == BatchStatus::Failed
    }

    /// Whether a proof may still be recorded for a batch in this state.
    pub open spec fn accepts_proof(self) -> bool {
        self == BatchStatus::Received || self == BatchStatus::Locked
    }

    /// How far along the lifecycle a state is.
    pub open spec fn rank(self) -> int {
        match self {
            BatchStatus::Received => 0,
            BatchStatus::Locked => 1,
            BatchStatus::ProofSubmitted => 2,
            BatchStatus::Submitting => 3,
            BatchStatus::Succeeded => 4,
            BatchStatus::Failed => 4,
        }
    }

    /// Whether a batch in state `self` may next be in state `next`.
    pub open spec fn may_become(self, next: BatchStatus) -> bool {
        self == next || (!self.is_terminal() && self.rank() < next.rank())
    }

    /// The number under which the state is stored.
    pub open spec fn spec_code(self) -> u8 {
        match self {
            BatchStatus::Received => 1,
            BatchStatus::Locked => 2,
            BatchStatus::ProofSubmitted => 3,
            BatchStatus::Succeeded => 4,
            BatchStatus::Failed => 5,
            BatchStatus::Submitting => 6,
        }
    }

    /// The number under which the state is stored.
    pub fn code(self) -> (c: u8)
        ensures
            c == self.spec_code(),
    {
        match self {
            BatchStatus::Received => 1,
            BatchStatus::Locked => 2,
            BatchStatus::ProofSubmitted => 3,
            BatchStatus::Succeeded => 4,
            BatchStatus::Failed => 5,
            BatchStatus::Submitting => 6,
        }
    }

    /// The state stored under a number, if there is one.
    pub fn from_code(c: u8) -> (s: Option<BatchStatus>)
        ensures
            match s {
                Some(st) => st.spec_code() == c,
                None => forall|st: BatchStatus| st.spec_code() != c,
            },
    {
        if c == 1 {
            Some(BatchStatus::Received)
        } else if c == 2 {
            Some(BatchStatus::Locked)
        } else if c == 3 {
            Some(BatchStatus::ProofSubmitted)
        } else if c == 4 {
            Some(BatchStatus::Succeeded)
        } else if c == 5 {
            Some(BatchStatus::Failed)
        } else if c == 6 {
            Some(BatchStatus::Submitting)
        } else {
            None
        }
    }
}

/// One batch.
pub struct PoolBatch {
    /// The batch id: a hash over the ordered member ids.
    pub batch_hash: H256,
    /// The ids of the member operations, in the order fixed at formation.
    pub tx_hash_list: Vec<H256>,
    /// The validity proof, once one is recorded.
    pub zk_proof: Option<Vec<u8>>,
    /// The public inputs of the proof, once one is recorded.
    pub zk_pub_inputs: Option<Vec<U256>>,
    /// The id of the settlement transaction, once it is included on chain.
    pub send_tx_hash: Option<H256>,
    /// When the batch was formed, in milliseconds.
    pub created_at: i64,
    pub status: BatchStatus,
}

/// The mathematical content of a [`PoolBatch`].
pub ghost struct PoolBatchView {
    pub batch_hash: Seq<u8>,
    pub tx_hash_list: Seq<Seq<u8>>,
    pub zk_proof: Option<Seq<u8>>,
    pub zk_pub_inputs: Option<Seq<Seq<u64>>>,
    pub send_tx_hash: Option<Seq<u8>>,
    pub created_at: int,
    pub status: BatchStatus,
}

impl View for PoolBatch {
    type V = PoolBatchView;

    open spec fn view(&self) -> PoolBatchView {
        PoolBatchView {
            batch_hash: self.batch_hash@,
            tx_hash_list: hashes_view(self.tx_hash_list@),
            zk_proof: match self.zk_proof {
                Some(p) => Some(p@),
                None => None,
            },
            zk_pub_inputs: match self.zk_pub_inputs {
                Some(w) => Some(words_view(w@)),
                None => None,
            },
            send_tx_hash: match self.send_tx_hash {
                Some(h) => Some(h@),
                None => None,
            },
            created_at: self.created_at as int,
            status: self.status,
        }
    }
}

impl PoolBatchView {
    /// The same batch in another state.
    pub open spec fn with_status(self, status: BatchStatus) -> PoolBatchView {
        PoolBatchView { status, ..self }
    }

    /// The same batch with a proof recorded.
    pub open spec fn with_proof(self, proof: Seq<u8>, inputs: Seq<Seq<u64>>) -> PoolBatchView {
        PoolBatchView {
            zk_proof: Some(proof),
            zk_pub_inputs: Some(inputs),
            status: BatchStatus::ProofSubmitted,
            ..self
        }
    }

    /// The same batch, settled by the given transaction.
    pub open spec fn with_receipt(self, send_tx_hash: Seq<u8>) -> PoolBatchView {
        PoolBatchView { send_tx_hash: Some(send_tx_hash), status: BatchStatus::Succeeded, ..self }
    }
}

} // verus!
