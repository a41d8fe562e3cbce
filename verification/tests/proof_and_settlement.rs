use ethers::abi::Token;
use ethers::signers::{LocalWallet, Signer};
use ethers::types::transaction::eip2718::TypedTransaction;
use ethers::types::TransactionRequest;
use zkprover_bundler::abi::{
    copy_bytes, user_operation_from_token, user_operations_from_tokens, AbiToken, ShapeError,
};
use zkprover_bundler::model::pool_batch::BatchStatus;
use zkprover_bundler::model::pool_tx::TxStatus;
use zkprover_bundler::model::Pool;
use zkprover_bundler::service::pool::{
    batch_received_txs, complete_handle_ops, get_pool_batch, handle_ops,
    receive_proof_and_public_input, receive_tx, submit_proof, user_operations_from_call_data,
    ProofOutcome, SettlementError,
};

const SELECTOR: [u8; 4] = [0x1f, 0xad, 0x94, 0x8c];

fn key() -> LocalWallet {
    "0x4c0883a69102937d6231471b5dbb6204fe5129617082792ae468d01a3f362318"
        .parse::<LocalWallet>()
        .unwrap()
}

fn sign(nonce: u64, data: Vec<u8>) -> Vec<u8> {
    let tx: TypedTransaction = TransactionRequest::new()
        .to(ethers::types::H160([0x11; 20]))
        .nonce(nonce)
        .gas(100000u64)
        .gas_price(1u64)
        .value(0u64)
        .data(data)
        .chain_id(1u64)
        .into();
    let signature = key().sign_transaction_sync(&tx).unwrap();
    tx.rlp_signed(&signature).to_vec()
}

fn operation_token(tag: u8) -> Token {
    Token::Tuple(vec![
        Token::Address(ethers::types::H160([tag; 20])),
        Token::Uint((tag as u64).into()),
        Token::Bytes(vec![tag, 1]),
        Token::Bytes(vec![tag, 2, 2]),
        Token::Uint((100 + tag as u64).into()),
        Token::Uint((200 + tag as u64).into()),
        Token::Uint((300 + tag as u64).into()),
        Token::Uint((400 + tag as u64).into()),
        Token::Uint((500 + tag as u64).into()),
        Token::Bytes(vec![]),
        Token::Bytes(vec![tag; 65]),
    ])
}

fn call_data(tags: &[u8]) -> Vec<u8> {
    let mut data = SELECTOR.to_vec();
    data.extend(ethers::abi::encode(&[
        Token::Array(tags.iter().map(|t| operation_token(*t)).collect()),
        Token::Bytes(vec![9, 9, 9]),
        Token::FixedArray(vec![Token::Uint(5u64.into())]),
        Token::Address(ethers::types::H160([0xbb; 20])),
    ]));
    data
}

fn pool_with_batch(payloads: Vec<Vec<u8>>) -> (Pool, [u8; 32]) {
    let mut pool = Pool::new();
    let size = payloads.len();
    for (n, data) in payloads.into_iter().enumerate() {
        receive_tx(&mut pool, sign(n as u64, data), n as i64).unwrap();
    }
    assert_eq!(batch_received_txs(&mut pool, size, 1_000), Ok(size));
    let id = pool.batch(0).batch_hash;
    (pool, id)
}

fn proven_pool(payloads: Vec<Vec<u8>>) -> (Pool, [u8; 32]) {
    let (mut pool, id) = pool_with_batch(payloads);
    let inputs = vec![[7u64, 0, 0, 0], [8u64, 0, 0, 0]];
    assert_eq!(receive_proof_and_public_input(&mut pool, &id, vec![1, 2, 3], inputs), 1);
    (pool, id)
}

#[test]
fn nothing_is_handed_out_when_no_batch_waits() {
    let mut pool = Pool::new();
    assert!(get_pool_batch(&mut pool).is_none());
    receive_tx(&mut pool, sign(0, vec![]), 1).unwrap();
    assert!(get_pool_batch(&mut pool).is_none());
}

#[test]
fn a_waiting_batch_is_handed_out_once() {
    let (mut pool, id) = pool_with_batch(vec![call_data(&[1]), call_data(&[2])]);
    let response = get_pool_batch(&mut pool).unwrap();
    assert_eq!(response.batch_hash, id);
    assert_eq!(response.status, BatchStatus::Received);
    assert_eq!(response.tx_list, vec![pool.tx(0).tx.clone(), pool.tx(1).tx.clone()]);
    assert_eq!(pool.batch(0).status, BatchStatus::Locked);
    assert!(get_pool_batch(&mut pool).is_none());
    assert_eq!(pool.tx(0).status, TxStatus::Locked);
}

#[test]
fn the_first_waiting_batch_is_handed_out_first() {
    let mut pool = Pool::new();
    for n in 0..4u64 {
        receive_tx(&mut pool, sign(n, vec![]), n as i64).unwrap();
    }
    assert_eq!(batch_received_txs(&mut pool, 2, 10), Ok(2));
    assert_eq!(batch_received_txs(&mut pool, 2, 11), Ok(2));
    let first = get_pool_batch(&mut pool).unwrap();
    assert_eq!(first.batch_hash, pool.batch(0).batch_hash);
    let second = get_pool_batch(&mut pool).unwrap();
    assert_eq!(second.batch_hash, pool.batch(1).batch_hash);
    assert_eq!(second.tx_list, vec![pool.tx(2).tx.clone(), pool.tx(3).tx.clone()]);
}

#[test]
fn a_proof_for_an_unknown_batch_is_not_accepted() {
    let (mut pool, _) = pool_with_batch(vec![call_data(&[1])]);
    assert_eq!(receive_proof_and_public_input(&mut pool, &[0u8; 32], vec![1], vec![[1, 0, 0, 0]]), 0);
    assert_eq!(pool.batch(0).status, BatchStatus::Received);
    assert_eq!(pool.batch(0).zk_proof, None);
}

#[test]
fn a_proof_for_a_waiting_batch_is_accepted_and_recorded() {
    let (mut pool, id) = pool_with_batch(vec![call_data(&[1])]);
    let inputs = vec![[7u64, 0, 0, 0], [8u64, 0, 0, 0]];
    assert_eq!(receive_proof_and_public_input(&mut pool, &id, vec![1, 2, 3], inputs.clone()), 1);
    let batch = pool.batch(0);
    assert_eq!(batch.status, BatchStatus::ProofSubmitted);
    assert_eq!(batch.zk_proof, Some(vec![1, 2, 3]));
    assert_eq!(batch.zk_pub_inputs, Some(inputs));
    assert_eq!(batch.send_tx_hash, None);
}

#[test]
fn a_proof_for_a_handed_out_batch_is_accepted() {
    let (mut pool, id) = pool_with_batch(vec![call_data(&[1])]);
    get_pool_batch(&mut pool).unwrap();
    assert_eq!(receive_proof_and_public_input(&mut pool, &id, vec![4], vec![[1, 0, 0, 0]]), 1);
    assert_eq!(pool.batch(0).status, BatchStatus::ProofSubmitted);
}

#[test]
fn a_second_proof_is_not_accepted_and_changes_nothing() {
    let (mut pool, id) = proven_pool(vec![call_data(&[1])]);
    assert_eq!(receive_proof_and_public_input(&mut pool, &id, vec![9], vec![[9, 0, 0, 0]]), 0);
    assert_eq!(pool.batch(0).zk_proof, Some(vec![1, 2, 3]));
    assert_eq!(pool.batch(0).status, BatchStatus::ProofSubmitted);
}

#[test]
fn a_proof_for_a_settled_batch_is_not_accepted() {
    let (mut pool, id) = proven_pool(vec![call_data(&[1])]);
    handle_ops(&mut pool, &id, [0xaa; 20]).unwrap();
    assert_eq!(complete_handle_ops(&mut pool, &id, Some([0x55; 32])), Ok(BatchStatus::Succeeded));
    assert_eq!(receive_proof_and_public_input(&mut pool, &id, vec![9], vec![[9, 0, 0, 0]]), 0);
    assert_eq!(pool.batch(0).status, BatchStatus::Succeeded);
    assert_eq!(pool.batch(0).zk_proof, Some(vec![1, 2, 3]));
}

#[test]
fn the_settlement_call_carries_the_flattened_operations() {
    let (mut pool, id) = proven_pool(vec![call_data(&[1]), call_data(&[]), call_data(&[2, 3])]);
    let call = handle_ops(&mut pool, &id, [0xaa; 20]).unwrap();
    assert_eq!(call.ops.len(), 3);
    for (op, tag) in call.ops.iter().zip([1u8, 2, 3]) {
        assert_eq!(op.sender, [tag; 20]);
        assert_eq!(op.nonce, [tag as u64, 0, 0, 0]);
        assert_eq!(op.init_code, vec![tag, 1]);
        assert_eq!(op.call_data, vec![tag, 2, 2]);
        assert_eq!(op.call_gas_limit, [100 + tag as u64, 0, 0, 0]);
        assert_eq!(op.verification_gas_limit, [200 + tag as u64, 0, 0, 0]);
        assert_eq!(op.pre_verification_gas, [300 + tag as u64, 0, 0, 0]);
        assert_eq!(op.max_fee_per_gas, [400 + tag as u64, 0, 0, 0]);
        assert_eq!(op.max_priority_fee_per_gas, [500 + tag as u64, 0, 0, 0]);
        assert_eq!(op.paymaster_and_data, Vec::<u8>::new());
        assert_eq!(op.signature, vec![tag; 65]);
    }
    assert_eq!(call.proof, vec![1, 2, 3]);
    assert_eq!(call.pub_signals, [[7u64, 0, 0, 0]]);
    assert_eq!(call.beneficiary, [0xaa; 20]);
    assert_eq!(pool.batch(0).status, BatchStatus::Submitting);
    for i in 0..3 {
        assert_eq!(pool.tx(i).status, TxStatus::Locked);
    }
}

#[test]
fn settlement_does_not_start_for_an_unknown_or_unproven_batch() {
    let (mut pool, id) = pool_with_batch(vec![call_data(&[1])]);
    assert_eq!(handle_ops(&mut pool, &[3u8; 32], [0xaa; 20]).err(), Some(SettlementError::UnknownBatch));
    assert_eq!(handle_ops(&mut pool, &id, [0xaa; 20]).err(), Some(SettlementError::WrongState));
    assert_eq!(pool.batch(0).status, BatchStatus::Received);
    assert_eq!(pool.tx(0).status, TxStatus::Locked);
}

#[test]
fn settlement_does_not_start_twice() {
    let (mut pool, id) = proven_pool(vec![call_data(&[1])]);
    assert!(handle_ops(&mut pool, &id, [0xaa; 20]).is_ok());
    assert_eq!(handle_ops(&mut pool, &id, [0xaa; 20]).err(), Some(SettlementError::WrongState));
    assert_eq!(pool.batch(0).status, BatchStatus::Submitting);
}

#[test]
fn call_data_shorter_than_a_selector_fails_the_batch() {
    let (mut pool, id) = proven_pool(vec![call_data(&[1]), vec![1, 2, 3]]);
    assert_eq!(handle_ops(&mut pool, &id, [0xaa; 20]).err(), Some(SettlementError::CallData));
    assert_eq!(pool.batch(0).status, BatchStatus::Failed);
    assert_eq!(pool.batch(0).send_tx_hash, None);
    assert_eq!(pool.tx(0).status, TxStatus::Failed);
    assert_eq!(pool.tx(1).status, TxStatus::Failed);
}

#[test]
fn call_data_that_does_not_decode_fails_the_batch() {
    let mut data = SELECTOR.to_vec();
    data.extend([0xffu8; 64]);
    let (mut pool, id) = proven_pool(vec![data]);
    assert_eq!(handle_ops(&mut pool, &id, [0xaa; 20]).err(), Some(SettlementError::Arguments));
    assert_eq!(pool.batch(0).status, BatchStatus::Failed);
    assert_eq!(pool.tx(0).status, TxStatus::Failed);
}

#[test]
fn a_proof_without_public_inputs_fails_the_batch() {
    let (mut pool, id) = pool_with_batch(vec![call_data(&[1])]);
    assert_eq!(receive_proof_and_public_input(&mut pool, &id, vec![1], vec![]), 1);
    assert_eq!(handle_ops(&mut pool, &id, [0xaa; 20]).err(), Some(SettlementError::NoPublicInput));
    assert_eq!(pool.batch(0).status, BatchStatus::Failed);
    assert_eq!(pool.tx(0).status, TxStatus::Failed);
}

#[test]
fn an_included_settlement_succeeds_the_batch_and_settles_its_members() {
    let (mut pool, id) = proven_pool(vec![call_data(&[1]), call_data(&[2])]);
    receive_tx(&mut pool, sign(9, vec![]), 99).unwrap();
    handle_ops(&mut pool, &id, [0xaa; 20]).unwrap();
    assert_eq!(complete_handle_ops(&mut pool, &id, Some([0x55; 32])), Ok(BatchStatus::Succeeded));
    assert_eq!(pool.batch(0).status, BatchStatus::Succeeded);
    assert_eq!(pool.batch(0).send_tx_hash, Some([0x55; 32]));
    assert_eq!(pool.tx(0).status, TxStatus::Settled);
    assert_eq!(pool.tx(1).status, TxStatus::Settled);
    assert_eq!(pool.tx(2).status, TxStatus::Received);
}

#[test]
fn a_settlement_without_receipt_fails_the_batch_and_its_members() {
    let (mut pool, id) = proven_pool(vec![call_data(&[1]), call_data(&[2])]);
    handle_ops(&mut pool, &id, [0xaa; 20]).unwrap();
    assert_eq!(complete_handle_ops(&mut pool, &id, None), Ok(BatchStatus::Failed));
    assert_eq!(pool.batch(0).status, BatchStatus::Failed);
    assert_eq!(pool.batch(0).send_tx_hash, None);
    assert_eq!(pool.tx(0).status, TxStatus::Failed);
    assert_eq!(pool.tx(1).status, TxStatus::Failed);
}

#[test]
fn a_settlement_ends_only_once_and_only_after_it_started() {
    let (mut pool, id) = proven_pool(vec![call_data(&[1])]);
    assert_eq!(complete_handle_ops(&mut pool, &[1u8; 32], None), Err(SettlementError::UnknownBatch));
    assert_eq!(complete_handle_ops(&mut pool, &id, Some([5; 32])), Err(SettlementError::WrongState));
    assert_eq!(pool.batch(0).status, BatchStatus::ProofSubmitted);
    handle_ops(&mut pool, &id, [0xaa; 20]).unwrap();
    assert_eq!(complete_handle_ops(&mut pool, &id, Some([5; 32])), Ok(BatchStatus::Succeeded));
    assert_eq!(complete_handle_ops(&mut pool, &id, None), Err(SettlementError::WrongState));
    assert_eq!(pool.batch(0).status, BatchStatus::Succeeded);
    assert_eq!(pool.batch(0).send_tx_hash, Some([5; 32]));
}

#[test]
fn three_operations_go_from_intake_to_settlement() {
    let mut pool = Pool::new();
    let mut ids = vec![];
    for n in 0..3u64 {
        ids.push(receive_tx(&mut pool, sign(n, call_data(&[n as u8 + 1])), n as i64).unwrap());
    }
    assert_eq!(batch_received_txs(&mut pool, 3, 50), Ok(3));
    assert_eq!(pool.batch_count(), 1);
    assert_eq!(pool.batch(0).tx_hash_list, ids);
    for i in 0..3 {
        assert_eq!(pool.tx(i).status, TxStatus::Locked);
    }
    let handed = get_pool_batch(&mut pool).unwrap();
    assert_eq!(handed.tx_list.len(), 3);
    assert_eq!(pool.batch(0).status, BatchStatus::Locked);
    let id = handed.batch_hash;
    assert_eq!(receive_proof_and_public_input(&mut pool, &id, vec![0xab], vec![[1, 2, 3, 4]]), 1);
    assert_eq!(pool.batch(0).status, BatchStatus::ProofSubmitted);
    let call = handle_ops(&mut pool, &id, [0xcc; 20]).unwrap();
    assert_eq!(call.ops.len(), 3);
    assert_eq!(call.pub_signals, [[1u64, 2, 3, 4]]);
    assert_eq!(complete_handle_ops(&mut pool, &id, Some([0x77; 32])), Ok(BatchStatus::Succeeded));
    assert_eq!(pool.batch(0).status, BatchStatus::Succeeded);
    for i in 0..3 {
        assert_eq!(pool.tx(i).status, TxStatus::Settled);
    }
}

#[test]
fn call_data_is_read_behind_its_selector() {
    let ops = user_operations_from_call_data(&call_data(&[4, 5])).unwrap();
    assert_eq!(ops.len(), 2);
    assert_eq!(ops[0].sender, [4u8; 20]);
    assert_eq!(ops[1].sender, [5u8; 20]);
    assert_eq!(user_operations_from_call_data(&vec![]).err(), Some(SettlementError::CallData));
    assert_eq!(user_operations_from_call_data(&SELECTOR.to_vec()).err(), Some(SettlementError::Arguments));
    let large = ethers::abi::encode(&[Token::Uint(ethers::types::U256::MAX)]);
    let mut data = SELECTOR.to_vec();
    data.extend(large);
    assert_eq!(user_operations_from_call_data(&data).err(), Some(SettlementError::Arguments));
}

#[test]
fn tokens_of_another_shape_are_no_operations() {
    assert_eq!(user_operations_from_tokens(&vec![]).err(), Some(ShapeError::NotAnArray));
    assert_eq!(
        user_operations_from_tokens(&vec![AbiToken::Bytes(vec![1])]).err(),
        Some(ShapeError::NotAnArray)
    );
    assert_eq!(
        user_operations_from_tokens(&vec![AbiToken::FixedArray(vec![])]).err(),
        Some(ShapeError::NotAnArray)
    );
    assert_eq!(
        user_operations_from_tokens(&vec![AbiToken::Array(vec![AbiToken::Bool(true)])]).err(),
        Some(ShapeError::NotAnOperation)
    );
    assert_eq!(
        user_operations_from_tokens(&vec![AbiToken::Array(vec![AbiToken::Tuple(vec![])])]).err(),
        Some(ShapeError::NotAnOperation)
    );
    assert_eq!(user_operations_from_tokens(&vec![AbiToken::Array(vec![])]).unwrap().len(), 0);
}

#[test]
fn a_tuple_with_a_field_of_the_wrong_kind_is_no_operation() {
    let good = || {
        vec![
            AbiToken::Address([1; 20]),
            AbiToken::Uint([2, 0, 0, 0]),
            AbiToken::Bytes(vec![3]),
            AbiToken::Bytes(vec![4]),
            AbiToken::Uint([5, 0, 0, 0]),
            AbiToken::Uint([6, 0, 0, 0]),
            AbiToken::Uint([7, 0, 0, 0]),
            AbiToken::Uint([8, 0, 0, 0]),
            AbiToken::Uint([9, 0, 0, 0]),
            AbiToken::Bytes(vec![10]),
            AbiToken::Bytes(vec![11]),
        ]
    };
    let op = user_operation_from_token(&AbiToken::Tuple(good())).unwrap();
    assert_eq!(op.sender, [1; 20]);
    assert_eq!(op.nonce, [2, 0, 0, 0]);
    assert_eq!(op.init_code, vec![3]);
    assert_eq!(op.call_data, vec![4]);
    assert_eq!(op.call_gas_limit, [5, 0, 0, 0]);
    assert_eq!(op.verification_gas_limit, [6, 0, 0, 0]);
    assert_eq!(op.pre_verification_gas, [7, 0, 0, 0]);
    assert_eq!(op.max_fee_per_gas, [8, 0, 0, 0]);
    assert_eq!(op.max_priority_fee_per_gas, [9, 0, 0, 0]);
    assert_eq!(op.paymaster_and_data, vec![10]);
    assert_eq!(op.signature, vec![11]);
    for i in 0..11 {
        let mut fields = good();
        fields[i] = AbiToken::Bool(false);
        assert!(user_operation_from_token(&AbiToken::Tuple(fields)).is_none());
    }
    let mut short = good();
    short.pop();
    assert!(user_operation_from_token(&AbiToken::Tuple(short)).is_none());
    let mut int_nonce = good();
    int_nonce[1] = AbiToken::Int([2, 0, 0, 0]);
    assert!(user_operation_from_token(&AbiToken::Tuple(int_nonce)).is_none());
    assert!(user_operation_from_token(&AbiToken::Array(good())).is_none());
}

#[test]
fn bytes_are_copied_as_they_are() {
    assert_eq!(copy_bytes(&vec![]), Vec::<u8>::new());
    assert_eq!(copy_bytes(&vec![1, 2, 255]), vec![1, 2, 255]);
}

#[test]
fn the_outcome_of_a_proof_names_its_cause() {
    let (mut pool, id) = pool_with_batch(vec![call_data(&[1])]);
    assert_eq!(submit_proof(&mut pool, &[9u8; 32], vec![1], vec![]), ProofOutcome::NotFound);
    assert_eq!(pool.batch(0).status, BatchStatus::Received);
    assert_eq!(submit_proof(&mut pool, &id, vec![1], vec![[3, 0, 0, 0]]), ProofOutcome::Accepted);
    assert_eq!(pool.batch(0).status, BatchStatus::ProofSubmitted);
    assert_eq!(submit_proof(&mut pool, &id, vec![2], vec![]), ProofOutcome::AlreadyProven);
    handle_ops(&mut pool, &id, [0xaa; 20]).unwrap();
    assert_eq!(submit_proof(&mut pool, &id, vec![2], vec![]), ProofOutcome::AlreadyProven);
    complete_handle_ops(&mut pool, &id, None).unwrap();
    assert_eq!(submit_proof(&mut pool, &id, vec![2], vec![]), ProofOutcome::AlreadyProven);
    assert_eq!(pool.batch(0).zk_proof, Some(vec![1]));
    assert_eq!(pool.batch(0).zk_pub_inputs, Some(vec![[3, 0, 0, 0]]));
    assert_eq!(pool.batch(0).status, BatchStatus::Failed);
}

fn bare_operation(nonce: u64) -> Token {
    Token::Tuple(vec![
        Token::Address(ethers::types::H160::zero()),
        Token::Uint(nonce.into()),
        Token::Bytes(vec![]),
        Token::Bytes(vec![]),
        Token::Uint(0u64.into()),
        Token::Uint(0u64.into()),
        Token::Uint(0u64.into()),
        Token::Uint(0u64.into()),
        Token::Uint(0u64.into()),
        Token::Bytes(vec![]),
        Token::Bytes(vec![]),
    ])
}

#[test]
fn a_member_that_is_no_longer_stored_is_skipped() {
    let mut second = vec![0xde, 0xad, 0xbe, 0xef];
    second.extend(ethers::abi::encode(&[
        Token::Array(vec![bare_operation(1), bare_operation(2)]),
        Token::Bytes(vec![]),
        Token::FixedArray(vec![Token::Uint(0u64.into())]),
        Token::Address(ethers::types::H160::zero()),
    ]));
    let (mut pool, id) = pool_with_batch(vec![call_data(&[9]), second]);
    let gone = pool.batch(0).tx_hash_list[0];
    let kept = pool.batch(0).tx_hash_list[1];
    let removed = pool.remove_tx(&gone).unwrap();
    assert_eq!(removed.tx_hash, gone);
    assert_eq!(pool.tx_count(), 1);
    assert_eq!(pool.find_tx(&gone), None);
    assert_eq!(pool.batch(0).tx_hash_list, vec![gone, kept]);
    let inputs = vec![[7u64, 0, 0, 0], [9u64, 0, 0, 0]];
    assert_eq!(receive_proof_and_public_input(&mut pool, &id, vec![1], inputs), 1);
    let call = handle_ops(&mut pool, &id, [0xaa; 20]).unwrap();
    assert_eq!(call.ops.len(), 2);
    assert_eq!(call.ops[0].nonce, [1, 0, 0, 0]);
    assert_eq!(call.ops[1].nonce, [2, 0, 0, 0]);
    assert_eq!(call.pub_signals, [[7u64, 0, 0, 0]]);
    assert_eq!(complete_handle_ops(&mut pool, &id, Some([0xcc; 32])), Ok(BatchStatus::Succeeded));
    assert_eq!(pool.batch(0).status, BatchStatus::Succeeded);
    assert_eq!(pool.batch(0).send_tx_hash, Some([0xcc; 32]));
    assert_eq!(pool.tx(0).tx_hash, kept);
    assert_eq!(pool.tx(0).status, TxStatus::Settled);
}

#[test]
fn a_batch_whose_members_are_all_gone_settles_no_operation() {
    let (mut pool, id) = proven_pool(vec![call_data(&[1])]);
    let member = pool.batch(0).tx_hash_list[0];
    assert!(pool.remove_tx(&member).is_some());
    let call = handle_ops(&mut pool, &id, [0xaa; 20]).unwrap();
    assert_eq!(call.ops.len(), 0);
    assert_eq!(complete_handle_ops(&mut pool, &id, None), Ok(BatchStatus::Failed));
    assert_eq!(pool.tx_count(), 0);
}

#[test]
fn a_removed_member_is_left_out_of_the_hand_out() {
    let (mut pool, _) = pool_with_batch(vec![call_data(&[1]), call_data(&[2]), call_data(&[3])]);
    let middle = pool.batch(0).tx_hash_list[1];
    let first = pool.tx(0).tx.clone();
    let last = pool.tx(2).tx.clone();
    assert!(pool.remove_tx(&middle).is_some());
    assert!(pool.remove_tx(&middle).is_none());
    let handed = get_pool_batch(&mut pool).unwrap();
    assert_eq!(handed.tx_list, vec![first, last]);
}

#[test]
fn a_removed_member_that_is_offered_anew_is_not_batched_again() {
    let (mut pool, id) = pool_with_batch(vec![call_data(&[1]), call_data(&[2])]);
    let member = pool.batch(0).tx_hash_list[0];
    let removed = pool.remove_tx(&member).unwrap();
    assert_eq!(pool.find_member(&member), Some(0));
    assert_eq!(pool.find_member(&[0u8; 32]), None);
    assert_eq!(receive_tx(&mut pool, removed.tx.clone(), 500), Ok(member));
    assert_eq!(pool.tx_count(), 2);
    assert_eq!(pool.tx(1).tx_hash, member);
    assert_eq!(pool.tx(1).status, TxStatus::Locked);
    assert_eq!(batch_received_txs(&mut pool, 1, 600), Ok(0));
    assert_eq!(pool.batch_count(), 1);
    assert!(pool.remove_tx(&member).is_some());
    assert_eq!(receive_proof_and_public_input(&mut pool, &id, vec![1], vec![[1, 0, 0, 0]]), 1);
    handle_ops(&mut pool, &id, [0xaa; 20]).unwrap();
    assert_eq!(complete_handle_ops(&mut pool, &id, Some([3; 32])), Ok(BatchStatus::Succeeded));
    assert_eq!(receive_tx(&mut pool, removed.tx, 700), Ok(member));
    assert_eq!(pool.tx(1).status, TxStatus::Settled);
}

#[test]
fn a_settlement_that_could_not_be_sent_fails_the_proven_batch() {
    let (mut pool, id) = proven_pool(vec![call_data(&[1])]);
    assert_eq!(complete_handle_ops(&mut pool, &id, None), Ok(BatchStatus::Failed));
    assert_eq!(pool.batch(0).status, BatchStatus::Failed);
    assert_eq!(pool.batch(0).send_tx_hash, None);
    assert_eq!(pool.tx(0).status, TxStatus::Failed);
    assert_eq!(handle_ops(&mut pool, &id, [0xaa; 20]).err(), Some(SettlementError::WrongState));
    let (mut waiting, waiting_id) = pool_with_batch(vec![call_data(&[1])]);
    assert_eq!(
        complete_handle_ops(&mut waiting, &waiting_id, None),
        Err(SettlementError::WrongState)
    );
    assert_eq!(waiting.batch(0).status, BatchStatus::Received);
}
