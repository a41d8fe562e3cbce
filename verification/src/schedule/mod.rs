//! The batching pass as the periodic trigger and the intake run it.

use vstd::prelude::*;
use crate::model::Pool;
use crate::service::fifo::received_count;
use crate::service::pool::{after_pass, batch_received_txs, pass_is_barred};

verus! {

/// Runs one batching pass and lets an abandoned pass go: the next trigger
/// tries again. The pass has the pool to itself for its whole length, so no
/// two passes overlap. Returns whether a batch was formed.
pub fn do_batch_received_txs(pool: &mut Pool, batch_size: usize, now: i64) -> (formed: bool)
    requires
        old(pool)@.wf(),
    ensures
        final(pool)@.wf(),
        old(pool)@.leads_to(final(pool)@),
        final(pool)@ == after_pass(old(pool)@, batch_size as nat, now as int),
        formed == (received_count(old(pool)@.txs) >= batch_size && !pass_is_barred(
            old(pool)@,
            batch_size as nat,
        )),
{
    match batch_received_txs(pool, batch_size, now) {
        Ok(count) => count == batch_size,
        Err(_) => false,
    }
}

} // verus!
