use ethers::signers::{LocalWallet, Signer};
use ethers::types::transaction::eip2718::TypedTransaction;
use ethers::types::TransactionRequest;
use zkprover_bundler::eth::ValidationError;
use zkprover_bundler::model::pool_batch::BatchStatus;
use zkprover_bundler::model::Pool;
use zkprover_bundler::open_rpc_server::{
    normalized_type, validation_error_message, OpenRpcServerImpl, TxTypeField,
};
use zkprover_bundler::schedule::do_batch_received_txs;
use zkprover_bundler::types::h256_eq;

fn raw_tx(nonce: u64) -> Vec<u8> {
    let wallet = "0x4c0883a69102937d6231471b5dbb6204fe5129617082792ae468d01a3f362318"
        .parse::<LocalWallet>()
        .unwrap();
    let tx: TypedTransaction = TransactionRequest::new()
        .to(ethers::types::H160([0x11; 20]))
        .nonce(nonce)
        .gas(21000u64)
        .gas_price(1u64)
        .value(1u64)
        .chain_id(1u64)
        .into();
    let signature = wallet.sign_transaction_sync(&tx).unwrap();
    tx.rlp_signed(&signature).to_vec()
}

#[test]
fn short_transaction_types_get_two_digits() {
    assert_eq!(normalized_type(&TxTypeField::Text("0x0".to_string())), Some("0x00".to_string()));
    assert_eq!(normalized_type(&TxTypeField::Text("0x1".to_string())), Some("0x01".to_string()));
    assert_eq!(normalized_type(&TxTypeField::Text("0x2".to_string())), Some("0x02".to_string()));
}

#[test]
fn a_missing_or_odd_transaction_type_becomes_legacy() {
    assert_eq!(normalized_type(&TxTypeField::Missing), Some("0x00".to_string()));
    assert_eq!(normalized_type(&TxTypeField::NotText), Some("0x00".to_string()));
}

#[test]
fn other_transaction_types_stay() {
    assert_eq!(normalized_type(&TxTypeField::Text("0x02".to_string())), None);
    assert_eq!(normalized_type(&TxTypeField::Text("0x3".to_string())), None);
    assert_eq!(normalized_type(&TxTypeField::Text(String::new())), None);
    assert_eq!(normalized_type(&TxTypeField::Text("0X0".to_string())), None);
}

#[test]
fn each_refusal_has_its_text() {
    assert_eq!(validation_error_message(ValidationError::Malformed), "malformed transaction");
    assert_eq!(validation_error_message(ValidationError::BadSignature), "signature recovery failed");
}

#[test]
fn identifiers_are_compared_byte_by_byte() {
    let a = [7u8; 32];
    let mut b = [7u8; 32];
    assert!(h256_eq(&a, &b));
    b[31] = 8;
    assert!(!h256_eq(&a, &b));
    b[31] = 7;
    b[0] = 0;
    assert!(!h256_eq(&a, &b));
}

#[test]
fn a_raw_transaction_request_is_answered_with_its_id() {
    let mut pool = Pool::new();
    let raw = raw_tx(0);
    let id = OpenRpcServerImpl.eth_send_raw_transaction(&mut pool, raw.clone(), 3);
    assert_eq!(id, Ok(ethers::utils::keccak256(&raw)));
    assert_eq!(pool.tx_count(), 1);
    let refused = OpenRpcServerImpl.eth_send_raw_transaction(&mut pool, vec![1, 2, 3], 4);
    assert_eq!(refused, Err("malformed transaction".to_string()));
    assert_eq!(pool.tx_count(), 1);
}

#[test]
fn batch_and_proof_requests_reach_the_pool() {
    let mut pool = Pool::new();
    assert!(OpenRpcServerImpl.zkp_get_pool_batch(&mut pool).is_none());
    OpenRpcServerImpl.eth_send_raw_transaction(&mut pool, raw_tx(0), 1).unwrap();
    assert!(do_batch_received_txs(&mut pool, 1, 2));
    let handed = OpenRpcServerImpl.zkp_get_pool_batch(&mut pool).unwrap();
    assert_eq!(handed.status.code(), 1);
    assert_eq!(handed.tx_list, vec![raw_tx(0)]);
    assert_eq!(
        OpenRpcServerImpl.zkp_send_proof_and_public_inputs(&mut pool, [0; 32], vec![1], vec![]),
        0
    );
    assert_eq!(
        OpenRpcServerImpl.zkp_send_proof_and_public_inputs(
            &mut pool,
            handed.batch_hash,
            vec![1],
            vec![[2, 0, 0, 0]]
        ),
        1
    );
    assert_eq!(pool.batch(0).status, BatchStatus::ProofSubmitted);
    assert_eq!(pool.batch(0).zk_pub_inputs, Some(vec![[2, 0, 0, 0]]));
}
