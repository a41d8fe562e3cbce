//! What the pool takes from the `ethers` crate: hashing, list encoding, the
//! decoding of signed transactions and of contract-call arguments. The
//! functions that call into `ethers` are not proved; each of their contracts
//! states what the outside function is taken to do. [`read_signed_tx`] is
//! proved from them.

use vstd::prelude::*;
use ethers::abi::{ParamType, Token};
use crate::abi::{shapes_of, takes_room, tokens_view, AbiShape, AbiToken, AbiTokenView, AbiType};
use crate::types::{hashes_view, H160, H256, U256};

verus! {

/// `ethers::abi::ParamType`, the outside description of an argument's type.
/// Nothing is claimed of its values; they only pass from [`to_param_type`] to
/// the decoder.
#[verifier::external_type_specification]
#[verifier::external_body]
pub struct ExParamType(ParamType);

/// `ethers::abi::Token`, the outside form of a decoded argument. Nothing is
/// claimed of its values; they only pass from the decoder to [`from_token`].
#[verifier::external_type_specification]
#[verifier::external_body]
pub struct ExToken(Token);

/// The Keccak-256 digest of a byte string, as `ethers::utils::keccak256` computes it.
pub uninterp spec fn keccak256_digest(data: Seq<u8>) -> Seq<u8>;

/// The RLP encoding of a list of byte strings, as `ethers::utils::rlp::encode_list`
/// computes it for a list of 32-byte hashes.
pub uninterp spec fn rlp_list_encoding(items: Seq<Seq<u8>>) -> Seq<u8>;

/// The chain id that `ethers::utils::rlp::decode` reads out of a raw
/// transaction: `None` where the bytes do not decode, `Some(None)` where the
/// transaction names no chain, else the id's four limbs, least significant first.
pub uninterp spec fn tx_chain_id(raw: Seq<u8>) -> Option<Option<Seq<u64>>>;

/// What `ethers` reads out of a raw signed transaction: see [`decode_signed_tx`].
pub uninterp spec fn signed_tx_decoding(raw: Seq<u8>) -> Result<SignedTxView, ValidationError>;

/// The tokens that `ethers::abi::decode` reads from `data` for arguments of the
/// given shapes, or `None` where it reports an error.
pub uninterp spec fn abi_decoding(shapes: Seq<AbiShape>, data: Seq<u8>) -> Option<
    Seq<AbiTokenView>,
>;

/// Why a raw transaction was not admitted.
#[derive(Clone, Copy, Debug, PartialEq, Eq, Structural)]
pub enum ValidationError {
    /// The bytes are not a well-formed signed transaction.
    Malformed,
    /// No sender could be recovered from the signature.
    BadSignature,
}

/// What the pool reads from a signed transaction.
pub struct SignedTx {
    /// The sender recovered from the signature.
    pub from: H160,
    /// The hash of the transaction's canonical encoding.
    pub hash: H256,
    /// The call data.
    pub input: Vec<u8>,
}

/// The mathematical content of a [`SignedTx`].
pub ghost struct SignedTxView {
    pub from: Seq<u8>,
    pub hash: Seq<u8>,
    pub input: Seq<u8>,
}

impl View for SignedTx {
    type V = SignedTxView;

    open spec fn view(&self) -> SignedTxView {
        SignedTxView { from: self.from@, hash: self.hash@, input: self.input@ }
    }
}

/// The view of a chain id as it was read.
pub open spec fn chain_id_view(r: Option<Option<U256>>) -> Option<Option<Seq<u64>>> {
    match r {
        None => None,
        Some(None) => Some(None),
        Some(Some(limbs)) => Some(Some(limbs@)),
    }
}

/// Whether the bytes decode as a transaction whose chain id, if it names
/// one, fits in 64 bits.
pub open spec fn chain_id_fits(raw: Seq<u8>) -> bool {
    match tx_chain_id(raw) {
        None => false,
        Some(None) => true,
        Some(Some(limbs)) => limbs.len() == 4 && limbs[1] == 0 && limbs[2] == 0 && limbs[3] == 0,
    }
}

/// The view of a decoding result.
pub open spec fn signed_tx_result_view(r: Result<SignedTx, ValidationError>) -> Result<
    SignedTxView,
    ValidationError,
> {
    match r {
        Ok(tx) => Ok(tx@),
        Err(e) => Err(e),
    }
}

/// Calls `ethers::utils::keccak256`. The contract claims only that the digest
/// is a function of the input bytes.
#[verifier::external_body]
pub(crate) fn keccak256(data: &Vec<u8>) -> (digest: H256)
    ensures
        digest@ == keccak256_digest(data@),
{
    ethers::utils::keccak256(data)
}

/// Calls `ethers::utils::rlp::encode_list` on the hashes. The contract claims
/// only that the encoding is a function of the hashes' bytes, in order.
#[verifier::external_body]
pub(crate) fn rlp_encode_list(items: &Vec<H256>) -> (out: Vec<u8>)
    ensures
        out@ == rlp_list_encoding(hashes_view(items@)),
{
    let hashes: Vec<ethers::types::H256> = items.iter().map(|h| ethers::types::H256(*h)).collect();
    ethers::utils::rlp::encode_list::<ethers::types::H256, _>(&hashes).to_vec()
}

/// Decodes a raw transaction with `ethers::utils::rlp::decode` and picks
/// its chain id. The contract claims only that the outcome is a function of
/// the raw bytes.
#[verifier::external_body]
pub(crate) fn decoded_chain_id(raw: &Vec<u8>) -> (r: Option<Option<U256>>)
    ensures
        chain_id_view(r) == tx_chain_id(raw@),
{
    let tx = ethers::utils::rlp::decode::<ethers::types::Transaction>(raw).ok()?;
    Some(tx.chain_id.map(|id| id.0))
}

/// Decodes a raw signed transaction with `ethers::utils::rlp::decode`,
/// recovers its sender with `Transaction::recover_from` and hashes it with
/// `Transaction::hash`. The contract claims that the outcome is a function of
/// the raw bytes: `Malformed` where decoding fails, `BadSignature` where
/// recovery fails, else the sender, the hash and the call data. Bytes that do
/// not decode, or whose chain id does not fit in 64 bits, are left out: on
/// such an id recovery and hashing stop the program.
#[verifier::external_body]
pub(crate) fn decode_signed_tx(raw: &Vec<u8>) -> (r: Result<SignedTx, ValidationError>)
    requires
        chain_id_fits(raw@),
    ensures
        signed_tx_result_view(r) == signed_tx_decoding(raw@),
{
    let tx = match ethers::utils::rlp::decode::<ethers::types::Transaction>(raw) {
        Ok(tx) => tx,
        Err(_) => return Err(ValidationError::Malformed),
    };
    match tx.recover_from() {
        Ok(from) => Ok(SignedTx { from: from.0, hash: tx.hash().0, input: tx.input.to_vec() }),
        Err(_) => Err(ValidationError::BadSignature),
    }
}

/// Turns an argument type into the `ParamType` of `ethers::abi`, variant by variant.
#[verifier::external_body]
pub(crate) fn to_param_type(t: &AbiType) -> ParamType {
    match t {
        AbiType::Address => ParamType::Address,
        AbiType::Bytes => ParamType::Bytes,
        AbiType::Int(n) => ParamType::Int(*n),
        AbiType::Uint(n) => ParamType::Uint(*n),
        AbiType::Bool => ParamType::Bool,
        AbiType::String => ParamType::String,
        AbiType::Array(e) => ParamType::Array(Box::new(to_param_type(e))),
        AbiType::FixedBytes(n) => ParamType::FixedBytes(*n),
        AbiType::FixedArray(e, n) => ParamType::FixedArray(Box::new(to_param_type(e)), *n),
        AbiType::Tuple(f) => ParamType::Tuple(to_param_types(f)),
    }
}

/// Turns argument types into `ParamType`s, one by one.
#[verifier::external_body]
pub(crate) fn to_param_types(types: &Vec<AbiType>) -> Vec<ParamType> {
    types.iter().map(to_param_type).collect()
}

/// Turns a `Token` of `ethers::abi` into a token of this library, variant by variant.
#[verifier::external_body]
pub(crate) fn from_token(t: Token) -> AbiToken {
    match t {
        Token::Address(a) => AbiToken::Address(a.0),
        Token::FixedBytes(b) => AbiToken::FixedBytes(b),
        Token::Bytes(b) => AbiToken::Bytes(b),
        Token::Int(n) => AbiToken::Int(n.0),
        Token::Uint(n) => AbiToken::Uint(n.0),
        Token::Bool(b) => AbiToken::Bool(b),
        Token::String(s) => AbiToken::String(s),
        Token::FixedArray(v) => AbiToken::FixedArray(from_tokens(v)),
        Token::Array(v) => AbiToken::Array(from_tokens(v)),
        Token::Tuple(v) => AbiToken::Tuple(from_tokens(v)),
    }
}

/// Turns `Token`s into tokens of this library, one by one.
#[verifier::external_body]
pub(crate) fn from_tokens(tokens: Vec<Token>) -> Vec<AbiToken> {
    tokens.into_iter().map(from_token).collect()
}

/// Calls `ethers::abi::decode` with the given argument types. The contract
/// claims that the outcome is a function of the types' shapes and the bytes,
/// and `None` where the outside function reports an error. Shapes whose
/// values take up no room are left out: the outside function reads as many of
/// them as the data claims, which the data's length does not bound. So are
/// fixed byte strings beyond one word, which the encoding does not have.
#[verifier::external_body]
pub(crate) fn abi_decode(types: &Vec<AbiType>, data: &Vec<u8>) -> (r: Option<Vec<AbiToken>>)
    requires
        forall|i: int| 0 <= i < types@.len() ==> takes_room(#[trigger] shapes_of(types@)[i]),
    ensures
        match r {
            Some(tokens) => abi_decoding(shapes_of(types@), data@) == Some(tokens_view(tokens@)),
            None => abi_decoding(shapes_of(types@), data@) is None,
        },
{
    let tokens = ethers::abi::decode(&to_param_types(types), data).ok()?;
    Some(from_tokens(tokens))
}

/// What is read out of a raw signed transaction: `Malformed` where the bytes
/// do not decode or name a chain id beyond 64 bits, else what
/// [`signed_tx_decoding`] gives.
pub open spec fn signed_tx_reading(raw: Seq<u8>) -> Result<SignedTxView, ValidationError> {
    if chain_id_fits(raw) {
        signed_tx_decoding(raw)
    } else {
        Err(ValidationError::Malformed)
    }
}

/// Reads a raw signed transaction: its sender, its hash and its call data.
/// Bytes that do not decode, and a chain id beyond 64 bits, give
/// `Malformed`; a signature that recovers no sender gives `BadSignature`.
pub fn read_signed_tx(raw: &Vec<u8>) -> (r: Result<SignedTx, ValidationError>)
    ensures
        signed_tx_result_view(r) == signed_tx_reading(raw@),
{
    match decoded_chain_id(raw) {
        None => Err(ValidationError::Malformed),
        Some(None) => decode_signed_tx(raw),
        Some(Some(limbs)) => {
            if limbs[1] == 0 && limbs[2] == 0 && limbs[3] == 0 {
                decode_signed_tx(raw)
            } else {
                Err(ValidationError::Malformed)
            }
        },
    }
}

} // verus!
