//! One admitted operation and its lifecycle state.

use vstd::prelude::*;
use crate::types::{H160, H256};

verus! {

/// Where an operation stands. It only moves forward: `Received`, then
/// `Locked`, then `Settled`; `Failed` is reached from `Received` or `Locked`.
#[derive(Clone, Copy, Debug, PartialEq, Eq, Structural)]
pub enum TxStatus {
    /// Admitted and waiting for a batch.
    Received,
    /// A member of a batch that has not been settled yet.
    Locked,
    /// Settled on chain with its batch.
    Settled,
    /// Its batch failed.
    Failed,
}

impl TxStatus {
    /// Whether no further transition leaves this state.
    pub open spec fn is_terminal(self) -> bool {
        self == TxStatus::Settled || self == TxStatus::Failed
    }

    /// How far along the lifecycle a state is.
    pub open spec fn rank(self) -> int {
        match self {
            TxStatus::Received => 0,
            TxStatus::Locked => 1,
            TxStatus::Settled => 2,
            TxStatus::Failed => 2,
        }
    }

    /// Whether an operation in state `self` may next be in state `next`.
    pub open spec fn may_become(self, next: TxStatus) -> bool {
        self == next || (!self.is_terminal() && self.rank() < next.rank())
    }

    /// The number under which the state is stored.
    pub open spec fn spec_code(self) -> u8 {
        match self {
            TxStatus::Received => 1,
            TxStatus::Locked => 2,
            TxStatus::Settled => 3,
            TxStatus::Failed => 4,
        }
    }

    /// The number under which the state is stored.
    pub fn code(self) -> (c: u8)
        ensures
            c == self.spec_code(),
    {
        match self {
            TxStatus::Received => 1,
            TxStatus::Locked => 2,
            TxStatus::Settled => 3,
            TxStatus::Failed => 4,
        }
    }

    /// The state stored under a number, if there is one.
    pub fn from_code(c: u8) -> (s: Option<TxStatus>)
        ensures
            match s {
                Some(st) => st.spec_code() == c,
                None => forall|st: TxStatus| st.spec_code() != c,
            },
    {
        if c == 1 {
            Some(TxStatus::Received)
        } else if c == 2 {
            Some(TxStatus::Locked)
        } else if c == 3 {
            Some(TxStatus::Settled)
        } else if c == 4 {
            Some(TxStatus::Failed)
        } else {
            None
        }
    }
}

/// One admitted operation.
pub struct PoolTx {
    /// The signed transaction as it was submitted.
    pub tx: Vec<u8>,
    /// The sender recovered from the signature.
    pub tx_from: H160,
    /// The operation id: the hash of the transaction's canonical encoding.
    pub tx_hash: H256,
    /// When the operation was admitted, in milliseconds.
    pub created_at: i64,
    pub status: TxStatus,
}

/// The mathematical content of a [`PoolTx`].
pub ghost struct PoolTxView {
    pub tx: Seq<u8>,
    pub tx_from: Seq<u8>,
    pub tx_hash: Seq<u8>,
    pub created_at: int,
    pub status: TxStatus,
}

impl View for PoolTx {
    type V = PoolTxView;

    open spec fn view(&self) -> PoolTxView {
        PoolTxView {
            tx: self.tx@,
            tx_from: self.tx_from@,
            tx_hash: self.tx_hash@,
            created_at: self.created_at as int,
            status: self.status,
        }
    }
}

impl PoolTxView {
    /// The same operation in another state.
    pub open spec fn with_status(self, status: TxStatus) -> PoolTxView {
        PoolTxView { status, ..self }
    }
}

} // verus!
