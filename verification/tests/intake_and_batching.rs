use ethers::abi::Token;
use ethers::signers::{LocalWallet, Signer};
use ethers::types::transaction::eip2718::TypedTransaction;
use ethers::types::{Transaction, TransactionRequest};
use zkprover_bundler::eth::ValidationError;
use zkprover_bundler::model::pool_batch::BatchStatus;
use zkprover_bundler::model::pool_tx::TxStatus;
use zkprover_bundler::model::Pool;
use zkprover_bundler::schedule::do_batch_received_txs;
use zkprover_bundler::service::fifo::oldest_received;
use zkprover_bundler::service::pool::{batch_received_txs, receive_tx, PoolError};

fn wallet() -> LocalWallet {
    "0x4c0883a69102937d6231471b5dbb6204fe5129617082792ae468d01a3f362318"
        .parse::<LocalWallet>()
        .unwrap()
}

fn signed_tx(nonce: u64, data: Vec<u8>) -> Vec<u8> {
    let tx: TypedTransaction = TransactionRequest::new()
        .to(ethers::types::H160([0x11; 20]))
        .nonce(nonce)
        .gas(100000u64)
        .gas_price(1u64)
        .value(0u64)
        .data(data)
        .chain_id(1u64)
        .into();
    let signature = wallet().sign_transaction_sync(&tx).unwrap();
    tx.rlp_signed(&signature).to_vec()
}

fn plain_tx(nonce: u64) -> Vec<u8> {
    signed_tx(nonce, ethers::abi::encode(&[Token::Uint(nonce.into())]))
}

fn id_of(raw: &[u8]) -> [u8; 32] {
    ethers::utils::keccak256(raw)
}

fn batch_id_of(members: &[[u8; 32]]) -> [u8; 32] {
    let hashes: Vec<ethers::types::H256> = members.iter().map(|h| ethers::types::H256(*h)).collect();
    ethers::utils::keccak256(ethers::utils::rlp::encode_list::<ethers::types::H256, _>(&hashes))
}

#[test]
fn intake_stores_the_operation_under_its_recomputed_id() {
    let mut pool = Pool::new();
    let raw = plain_tx(0);
    let id = receive_tx(&mut pool, raw.clone(), 1_000).unwrap();
    assert_eq!(id, id_of(&raw));
    assert_eq!(pool.tx_count(), 1);
    let row = pool.tx(0);
    assert_eq!(row.tx, raw);
    assert_eq!(row.tx_hash, id);
    assert_eq!(row.tx_from, wallet().address().0);
    assert_eq!(row.created_at, 1_000);
    assert_eq!(row.status, TxStatus::Received);
    assert_eq!(pool.find_tx(&id), Some(0));
}

#[test]
fn intake_of_the_same_transaction_twice_stores_it_once() {
    let mut pool = Pool::new();
    let raw = plain_tx(7);
    let first = receive_tx(&mut pool, raw.clone(), 10).unwrap();
    let second = receive_tx(&mut pool, raw.clone(), 20).unwrap();
    assert_eq!(first, second);
    assert_eq!(pool.tx_count(), 1);
    assert_eq!(pool.tx(0).created_at, 10);
}

#[test]
fn intake_gives_different_transactions_different_ids() {
    let mut pool = Pool::new();
    let a = receive_tx(&mut pool, plain_tx(1), 10).unwrap();
    let b = receive_tx(&mut pool, plain_tx(2), 10).unwrap();
    assert_ne!(a, b);
    assert_eq!(pool.tx_count(), 2);
    assert_eq!(pool.find_tx(&b), Some(1));
}

#[test]
fn intake_refuses_bytes_that_are_no_transaction() {
    let mut pool = Pool::new();
    assert_eq!(receive_tx(&mut pool, vec![], 1), Err(ValidationError::Malformed));
    assert_eq!(receive_tx(&mut pool, vec![0xde, 0xad, 0xbe, 0xef], 1), Err(ValidationError::Malformed));
    assert_eq!(pool.tx_count(), 0);
}

#[test]
fn intake_refuses_a_signature_that_recovers_no_sender() {
    let mut pool = Pool::new();
    let unsigned = Transaction { v: 27u64.into(), gas_price: Some(1u64.into()), ..Default::default() };
    let raw = unsigned.rlp().to_vec();
    assert_eq!(receive_tx(&mut pool, raw, 1), Err(ValidationError::BadSignature));
    assert_eq!(pool.tx_count(), 0);
}

#[test]
fn intake_ignores_what_a_typed_transaction_claims() {
    let mut pool = Pool::new();
    let tx: TypedTransaction = ethers::types::Eip1559TransactionRequest::new()
        .to(ethers::types::H160([0x22; 20]))
        .nonce(3u64)
        .gas(100000u64)
        .max_fee_per_gas(2u64)
        .max_priority_fee_per_gas(1u64)
        .chain_id(1u64)
        .into();
    let signature = wallet().sign_transaction_sync(&tx).unwrap();
    let raw = tx.rlp_signed(&signature).to_vec();
    let id = receive_tx(&mut pool, raw.clone(), 5).unwrap();
    assert_eq!(id, id_of(&raw));
    assert_eq!(pool.tx(0).tx_from, wallet().address().0);
}

#[test]
fn no_batch_is_formed_below_the_threshold() {
    let mut pool = Pool::new();
    receive_tx(&mut pool, plain_tx(0), 1).unwrap();
    receive_tx(&mut pool, plain_tx(1), 2).unwrap();
    assert_eq!(batch_received_txs(&mut pool, 3, 100), Ok(2));
    assert_eq!(pool.batch_count(), 0);
    assert_eq!(pool.tx(0).status, TxStatus::Received);
    assert_eq!(pool.tx(1).status, TxStatus::Received);
}

#[test]
fn a_third_operation_completes_one_batch_of_three() {
    let mut pool = Pool::new();
    let a = receive_tx(&mut pool, plain_tx(0), 1).unwrap();
    let b = receive_tx(&mut pool, plain_tx(1), 2).unwrap();
    assert_eq!(batch_received_txs(&mut pool, 3, 100), Ok(2));
    let c = receive_tx(&mut pool, plain_tx(2), 3).unwrap();
    assert_eq!(batch_received_txs(&mut pool, 3, 200), Ok(3));
    assert_eq!(pool.batch_count(), 1);
    let batch = pool.batch(0);
    assert_eq!(batch.tx_hash_list, vec![a, b, c]);
    assert_eq!(batch.status, BatchStatus::Received);
    assert_eq!(batch.created_at, 200);
    assert_eq!(batch.zk_proof, None);
    assert_eq!(batch.zk_pub_inputs, None);
    assert_eq!(batch.send_tx_hash, None);
    for i in 0..3 {
        assert_eq!(pool.tx(i).status, TxStatus::Locked);
    }
    assert_eq!(batch_received_txs(&mut pool, 3, 300), Ok(0));
    assert_eq!(pool.batch_count(), 1);
}

#[test]
fn the_batch_id_is_the_hash_of_the_encoded_member_list() {
    let mut pool = Pool::new();
    let a = receive_tx(&mut pool, plain_tx(0), 1).unwrap();
    let b = receive_tx(&mut pool, plain_tx(1), 2).unwrap();
    assert_eq!(batch_received_txs(&mut pool, 2, 9), Ok(2));
    assert_eq!(pool.batch(0).batch_hash, batch_id_of(&[a, b]));
    assert_ne!(pool.batch(0).batch_hash, batch_id_of(&[b, a]));
    assert_eq!(pool.find_batch(&batch_id_of(&[a, b])), Some(0));
}

#[test]
fn the_same_members_in_the_same_order_give_the_same_batch_id() {
    let mut first = Pool::new();
    let mut second = Pool::new();
    for pool in [&mut first, &mut second] {
        receive_tx(pool, plain_tx(4), 1).unwrap();
        receive_tx(pool, plain_tx(5), 2).unwrap();
    }
    assert_eq!(batch_received_txs(&mut first, 2, 10), Ok(2));
    assert_eq!(batch_received_txs(&mut second, 2, 99), Ok(2));
    assert_eq!(first.batch(0).batch_hash, second.batch(0).batch_hash);
}

#[test]
fn the_oldest_operations_are_batched_first() {
    let mut pool = Pool::new();
    let late = receive_tx(&mut pool, plain_tx(0), 50).unwrap();
    let early = receive_tx(&mut pool, plain_tx(1), 10).unwrap();
    let tie_first = receive_tx(&mut pool, plain_tx(2), 20).unwrap();
    let tie_second = receive_tx(&mut pool, plain_tx(3), 20).unwrap();
    assert_eq!(oldest_received(&pool, 3), vec![1, 2, 3]);
    assert_eq!(oldest_received(&pool, 10), vec![1, 2, 3, 0]);
    assert_eq!(oldest_received(&pool, 0), Vec::<usize>::new());
    assert_eq!(batch_received_txs(&mut pool, 3, 100), Ok(3));
    assert_eq!(pool.batch(0).tx_hash_list, vec![early, tie_first, tie_second]);
    assert_eq!(pool.tx(0).status, TxStatus::Received);
    assert_eq!(pool.tx(0).tx_hash, late);
    assert_eq!(oldest_received(&pool, 3), vec![0]);
}

#[test]
fn two_passes_never_share_an_operation() {
    let mut pool = Pool::new();
    for n in 0..5 {
        receive_tx(&mut pool, plain_tx(n), n as i64).unwrap();
    }
    assert_eq!(batch_received_txs(&mut pool, 2, 100), Ok(2));
    assert_eq!(batch_received_txs(&mut pool, 2, 101), Ok(2));
    assert_eq!(batch_received_txs(&mut pool, 2, 102), Ok(1));
    assert_eq!(pool.batch_count(), 2);
    let first = pool.batch(0).tx_hash_list.clone();
    let second = pool.batch(1).tx_hash_list.clone();
    for h in &first {
        assert!(!second.contains(h));
    }
    assert_eq!(pool.tx(4).status, TxStatus::Received);
}

#[test]
fn a_batch_whose_id_is_taken_is_not_formed_again() {
    let mut pool = Pool::new();
    receive_tx(&mut pool, plain_tx(0), 1).unwrap();
    assert_eq!(batch_received_txs(&mut pool, 0, 5), Ok(0));
    assert_eq!(pool.batch_count(), 1);
    assert_eq!(pool.batch(0).tx_hash_list.len(), 0);
    assert_eq!(pool.batch(0).batch_hash, batch_id_of(&[]));
    assert_eq!(batch_received_txs(&mut pool, 0, 6), Err(PoolError::DuplicateBatch));
    assert_eq!(pool.batch_count(), 1);
    assert_eq!(pool.tx(0).status, TxStatus::Received);
}

#[test]
fn the_scheduled_pass_says_whether_a_batch_was_formed() {
    let mut pool = Pool::new();
    receive_tx(&mut pool, plain_tx(0), 1).unwrap();
    assert!(!do_batch_received_txs(&mut pool, 2, 10));
    assert_eq!(pool.batch_count(), 0);
    receive_tx(&mut pool, plain_tx(1), 2).unwrap();
    assert!(do_batch_received_txs(&mut pool, 2, 11));
    assert_eq!(pool.batch_count(), 1);
    assert!(do_batch_received_txs(&mut pool, 0, 12));
    assert_eq!(pool.batch_count(), 2);
    assert!(!do_batch_received_txs(&mut pool, 0, 13));
    assert_eq!(pool.batch_count(), 2);
}

#[test]
fn a_batch_is_formed_exactly_when_enough_operations_wait() {
    let signed: Vec<Vec<u8>> = (0..6).map(plain_tx).collect();
    for threshold in 1usize..5 {
        for waiting in 0usize..=6 {
            let mut pool = Pool::new();
            for (n, raw) in signed.iter().take(waiting).enumerate() {
                receive_tx(&mut pool, raw.clone(), n as i64).unwrap();
            }
            assert_eq!(batch_received_txs(&mut pool, threshold, 100), Ok(waiting.min(threshold)));
            if waiting >= threshold {
                assert_eq!(pool.batch_count(), 1);
                assert_eq!(pool.batch(0).tx_hash_list.len(), threshold);
                for n in 0..waiting {
                    let expected = if n < threshold { TxStatus::Locked } else { TxStatus::Received };
                    assert_eq!(pool.tx(n).status, expected);
                }
            } else {
                assert_eq!(pool.batch_count(), 0);
                for n in 0..waiting {
                    assert_eq!(pool.tx(n).status, TxStatus::Received);
                }
            }
        }
    }
}

#[test]
fn only_the_batch_without_members_bars_a_pass() {
    let mut pool = Pool::new();
    assert!(!pool.has_empty_batch());
    receive_tx(&mut pool, plain_tx(0), 1).unwrap();
    receive_tx(&mut pool, plain_tx(1), 2).unwrap();
    assert_eq!(batch_received_txs(&mut pool, 1, 5), Ok(1));
    assert!(!pool.has_empty_batch());
    assert_eq!(batch_received_txs(&mut pool, 0, 6), Ok(0));
    assert!(pool.has_empty_batch());
    assert_eq!(batch_received_txs(&mut pool, 0, 7), Err(PoolError::DuplicateBatch));
    assert_eq!(batch_received_txs(&mut pool, 1, 8), Ok(1));
    assert_eq!(batch_received_txs(&mut pool, 1, 9), Ok(0));
    assert_eq!(pool.batch_count(), 3);
}
