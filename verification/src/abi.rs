//! Contract-call arguments as decoded values, and the reading of user
//! operations out of the arguments of a settlement call.

use vstd::prelude::*;
use crate::types::{H160, U256};

verus! {

/// The shape of one contract-call argument.
pub enum AbiType {
    Address,
    Bytes,
    Int(usize),
    Uint(usize),
    Bool,
    String,
    Array(Box<AbiType>),
    FixedBytes(usize),
    FixedArray(Box<AbiType>, usize),
    Tuple(Vec<AbiType>),
}

/// The mathematical content of an [`AbiType`].
pub ghost enum AbiShape {
    Address,
    Bytes,
    Int(nat),
    Uint(nat),
    Bool,
    String,
    Array(Box<AbiShape>),
    FixedBytes(nat),
    FixedArray(Box<AbiShape>, nat),
    Tuple(Seq<AbiShape>),
}

/// The shape that an argument type describes.
pub open spec fn shape_of(t: AbiType) -> AbiShape
    decreases t,
{
    match t {
        AbiType::Address => AbiShape::Address,
        AbiType::Bytes => AbiShape::Bytes,
        AbiType::Int(n) => AbiShape::Int(n as nat),
        AbiType::Uint(n) => AbiShape::Uint(n as nat),
        AbiType::Bool => AbiShape::Bool,
        AbiType::String => AbiShape::String,
        AbiType::Array(e) => AbiShape::Array(Box::new(shape_of(*e))),
        AbiType::FixedBytes(n) => AbiShape::FixedBytes(n as nat),
        AbiType::FixedArray(e, n) => AbiShape::FixedArray(Box::new(shape_of(*e)), n as nat),
        AbiType::Tuple(f) => AbiShape::Tuple(
            Seq::new(
                f@.len(),
                |i: int|
                    if 0 <= i < f@.len() {
                        shape_of(f@[i])
                    } else {
                        AbiShape::Bool
                    },
            ),
        ),
    }
}

/// Whether every value of a shape takes up room in its encoding, and no more
/// than its encoding says: no tuple without fields, no fixed array without
/// elements and no fixed byte string beyond one word, at any depth. Arrays of
/// such shapes cannot claim more elements than the data has room for.
pub open spec fn takes_room(shape: AbiShape) -> bool
    decreases shape,
{
    match shape {
        AbiShape::Array(e) => takes_room(*e),
        AbiShape::FixedBytes(n) => n <= 32,
        AbiShape::FixedArray(e, n) => n > 0 && takes_room(*e),
        AbiShape::Tuple(f) => f.len() > 0 && forall|i: int|
            0 <= i < f.len() ==> takes_room(#[trigger] f[i]),
        _ => true,
    }
}

/// The shapes that a list of argument types describes, in order.
pub open spec fn shapes_of(types: Seq<AbiType>) -> Seq<AbiShape> {
    Seq::new(types.len(), |i: int| shape_of(types[i]))
}

/// One decoded contract-call argument.
pub enum AbiToken {
    Address(H160),
    FixedBytes(Vec<u8>),
    Bytes(Vec<u8>),
    Int(U256),
    Uint(U256),
    Bool(bool),
    String(String),
    FixedArray(Vec<AbiToken>),
    Array(Vec<AbiToken>),
    Tuple(Vec<AbiToken>),
}

/// The mathematical content of an [`AbiToken`].
pub ghost enum AbiTokenView {
    Address(Seq<u8>),
    FixedBytes(Seq<u8>),
    Bytes(Seq<u8>),
    Int(Seq<u64>),
    Uint(Seq<u64>),
    Bool(bool),
    String(Seq<char>),
    FixedArray(Seq<AbiTokenView>),
    Array(Seq<AbiTokenView>),
    Tuple(Seq<AbiTokenView>),
}

/// What a token holds.
pub open spec fn token_view(t: AbiToken) -> AbiTokenView
    decreases t,
{
    match t {
        AbiToken::Address(a) => AbiTokenView::Address(a@),
        AbiToken::FixedBytes(b) => AbiTokenView::FixedBytes(b@),
        AbiToken::Bytes(b) => AbiTokenView::Bytes(b@),
        AbiToken::Int(n) => AbiTokenView::Int(n@),
        AbiToken::Uint(n) => AbiTokenView::Uint(n@),
        AbiToken::Bool(b) => AbiTokenView::Bool(b),
        AbiToken::String(s) => AbiTokenView::String(s@),
        AbiToken::FixedArray(e) => AbiTokenView::FixedArray(
            Seq::new(
                e@.len(),
                |i: int|
                    if 0 <= i < e@.len() {
                        token_view(e@[i])
                    } else {
                        AbiTokenView::Bool(false)
                    },
            ),
        ),
        AbiToken::Array(e) => AbiTokenView::Array(
            Seq::new(
                e@.len(),
                |i: int|
                    if 0 <= i < e@.len() {
                        token_view(e@[i])
                    } else {
                        AbiTokenView::Bool(false)
                    },
            ),
        ),
        AbiToken::Tuple(f) => AbiTokenView::Tuple(
            Seq::new(
                f@.len(),
                |i: int|
                    if 0 <= i < f@.len() {
                        token_view(f@[i])
                    } else {
                        AbiTokenView::Bool(false)
                    },
            ),
        ),
    }
}

/// What a list of tokens holds, in order.
pub open spec fn tokens_view(tokens: Seq<AbiToken>) -> Seq<AbiTokenView> {
    Seq::new(tokens.len(), |i: int| token_view(tokens[i]))
}

/// One account-abstraction operation as the settlement contract takes it.
pub struct UserOperation {
    pub sender: H160,
    pub nonce: U256,
    pub init_code: Vec<u8>,
    pub call_data: Vec<u8>,
    pub call_gas_limit: U256,
    pub verification_gas_limit: U256,
    pub pre_verification_gas: U256,
    pub max_fee_per_gas: U256,
    pub max_priority_fee_per_gas: U256,
    pub paymaster_and_data: Vec<u8>,
    pub signature: Vec<u8>,
}

/// The mathematical content of a [`UserOperation`].
pub ghost struct UserOperationView {
    pub sender: Seq<u8>,
    pub nonce: Seq<u64>,
    pub init_code: Seq<u8>,
    pub call_data: Seq<u8>,
    pub call_gas_limit: Seq<u64>,
    pub verification_gas_limit: Seq<u64>,
    pub pre_verification_gas: Seq<u64>,
    pub max_fee_per_gas: Seq<u64>,
    pub max_priority_fee_per_gas: Seq<u64>,
    pub paymaster_and_data: Seq<u8>,
    pub signature: Seq<u8>,
}

impl View for UserOperation {
    type V = UserOperationView;

    open spec fn view(&self) -> UserOperationView {
        UserOperationView {
            sender: self.sender@,
            nonce: self.nonce@,
            init_code: self.init_code@,
            call_data: self.call_data@,
            call_gas_limit: self.call_gas_limit@,
            verification_gas_limit: self.verification_gas_limit@,
            pre_verification_gas: self.pre_verification_gas@,
            max_fee_per_gas: self.max_fee_per_gas@,
            max_priority_fee_per_gas: self.max_priority_fee_per_gas@,
            paymaster_and_data: self.paymaster_and_data@,
            signature: self.signature@,
        }
    }
}

/// Why the arguments of a settlement call could not be read as user operations.
#[derive(Clone, Copy, Debug, PartialEq, Eq, Structural)]
pub enum ShapeError {
    /// There is no first argument, or it is not a dynamic array.
    NotAnArray,
    /// An element of the array is not a tuple of eleven fields.
    NotAnOperation,
}

/// The address a token holds, if it is an address.
pub open spec fn address_of(t: AbiTokenView) -> Option<Seq<u8>> {
    match t {
        AbiTokenView::Address(a) => Some(a),
        _ => None,
    }
}

/// The quantity a token holds, if it is an unsigned integer.
pub open spec fn uint_of(t: AbiTokenView) -> Option<Seq<u64>> {
    match t {
        AbiTokenView::Uint(n) => Some(n),
        _ => None,
    }
}

/// The bytes a token holds, if it is a dynamic byte string.
pub open spec fn bytes_of(t: AbiTokenView) -> Option<Seq<u8>> {
    match t {
        AbiTokenView::Bytes(b) => Some(b),
        _ => None,
    }
}

/// The fields of a token, if it is a tuple.
pub open spec fn tuple_of(t: AbiTokenView) -> Option<Seq<AbiTokenView>> {
    match t {
        AbiTokenView::Tuple(f) => Some(f),
        _ => None,
    }
}

/// The elements of a token, if it is a dynamic array.
pub open spec fn array_of(t: AbiTokenView) -> Option<Seq<AbiTokenView>> {
    match t {
        AbiTokenView::Array(e) => Some(e),
        _ => None,
    }
}

/// Whether eleven fields have the kinds of a user operation's fields, in order:
/// address, quantity, two byte strings, five quantities, two byte strings.
pub open spec fn operation_fields(f: Seq<AbiTokenView>) -> bool {
    &&& f.len() == 11
    &&& address_of(f[0]) is Some
    &&& uint_of(f[1]) is Some
    &&& bytes_of(f[2]) is Some
    &&& bytes_of(f[3]) is Some
    &&& uint_of(f[4]) is Some
    &&& uint_of(f[5]) is Some
    &&& uint_of(f[6]) is Some
    &&& uint_of(f[7]) is Some
    &&& uint_of(f[8]) is Some
    &&& bytes_of(f[9]) is Some
    &&& bytes_of(f[10]) is Some
}

/// The user operation that a token stands for, if it is a tuple of the right fields.
pub open spec fn user_operation_of(t: AbiTokenView) -> Option<UserOperationView> {
    match tuple_of(t) {
        Some(f) => if operation_fields(f) {
            Some(
                UserOperationView {
                    sender: address_of(f[0]).unwrap(),
                    nonce: uint_of(f[1]).unwrap(),
                    init_code: bytes_of(f[2]).unwrap(),
                    call_data: bytes_of(f[3]).unwrap(),
                    call_gas_limit: uint_of(f[4]).unwrap(),
                    verification_gas_limit: uint_of(f[5]).unwrap(),
                    pre_verification_gas: uint_of(f[6]).unwrap(),
                    max_fee_per_gas: uint_of(f[7]).unwrap(),
                    max_priority_fee_per_gas: uint_of(f[8]).unwrap(),
                    paymaster_and_data: bytes_of(f[9]).unwrap(),
                    signature: bytes_of(f[10]).unwrap(),
                },
            )
        } else {
            None
        },
        None => None,
    }
}

/// The user operations that the arguments of a settlement call carry: the
/// elements of the first argument, each read as an operation, in order.
pub open spec fn user_operations_of(args: Seq<AbiTokenView>) -> Result<
    Seq<UserOperationView>,
    ShapeError,
> {
    if args.len() == 0 || array_of(args[0]) is None {
        Err(ShapeError::NotAnArray)
    } else {
        let elems = array_of(args[0]).unwrap();
        if forall|i: int| 0 <= i < elems.len() ==> #[trigger] user_operation_of(elems[i]) is Some {
            Ok(Seq::new(elems.len(), |i: int| user_operation_of(elems[i]).unwrap()))
        } else {
            Err(ShapeError::NotAnOperation)
        }
    }
}

/// The views of a list of operations, in order.
pub open spec fn operation_views(ops: Seq<UserOperation>) -> Seq<UserOperationView> {
    Seq::new(ops.len(), |i: int| ops[i]@)
}

/// A fresh vector with the same bytes.
pub fn copy_bytes(src: &Vec<u8>) -> (out: Vec<u8>)
    ensures
        out@ == src@,
{
    let mut out: Vec<u8> = Vec::new();
    let mut i: usize = 0;
    while i < src.len()
        invariant
            i <= src.len(),
            out@ == src@.subrange(0, i as int),
        decreases src.len() - i,
    {
        out.push(src[i]);
        i += 1;
        assert(out@ =~= src@.subrange(0, i as int));
    }
    assert(out@ =~= src@);
    out
}

fn token_address(t: &AbiToken) -> (r: Option<H160>)
    ensures
        match r {
            Some(a) => address_of(token_view(*t)) == Some(a@),
            None => address_of(token_view(*t)) is None,
        },
{
    match t {
        AbiToken::Address(a) => Some(*a),
        _ => None,
    }
}

fn token_uint(t: &AbiToken) -> (r: Option<U256>)
    ensures
        match r {
            Some(n) => uint_of(token_view(*t)) == Some(n@),
            None => uint_of(token_view(*t)) is None,
        },
{
    match t {
        AbiToken::Uint(n) => Some(*n),
        _ => None,
    }
}

fn token_bytes(t: &AbiToken) -> (r: Option<Vec<u8>>)
    ensures
        match r {
            Some(b) => bytes_of(token_view(*t)) == Some(b@),
            None => bytes_of(token_view(*t)) is None,
        },
{
    match t {
        AbiToken::Bytes(b) => Some(copy_bytes(b)),
        _ => None,
    }
}

/// Reads one token as a user operation: a tuple of eleven fields of the
/// right kinds. Gives `None` for anything else.
pub fn user_operation_from_token(t: &AbiToken) -> (r: Option<UserOperation>)
    ensures
        match r {
            Some(op) => user_operation_of(token_view(*t)) == Some(op@),
            None => user_operation_of(token_view(*t)) is None,
        },
{
    let f = match t {
        AbiToken::Tuple(f) => f,
        _ => { return None; },
    };
    if f.len() != 11 {
        return None;
    }
    let sender = match token_address(&f[0]) { Some(v) => v, None => { return None; } };
    let nonce = match token_uint(&f[1]) { Some(v) => v, None => { return None; } };
    let init_code = match token_bytes(&f[2]) { Some(v) => v, None => { return None; } };
    let call_data = match token_bytes(&f[3]) { Some(v) => v, None => { return None; } };
    let call_gas_limit = match token_uint(&f[4]) { Some(v) => v, None => { return None; } };
    let verification_gas_limit = match token_uint(&f[5]) { Some(v) => v, None => { return None; } };
    let pre_verification_gas = match token_uint(&f[6]) { Some(v) => v, None => { return None; } };
    let max_fee_per_gas = match token_uint(&f[7]) { Some(v) => v, None => { return None; } };
    let max_priority_fee_per_gas = match token_uint(&f[8]) { Some(v) => v, None => { return None; } };
    let paymaster_and_data = match token_bytes(&f[9]) { Some(v) => v, None => { return None; } };
    let signature = match token_bytes(&f[10]) { Some(v) => v, None => { return None; } };
    Some(
        UserOperation {
            sender,
            nonce,
            init_code,
            call_data,
            call_gas_limit,
            verification_gas_limit,
            pre_verification_gas,
            max_fee_per_gas,
            max_priority_fee_per_gas,
            paymaster_and_data,
            signature,
        },
    )
}

/// Reads the user operations out of the decoded arguments of a settlement
/// call. The first argument must be a dynamic array and each of its elements an
/// operation tuple; the other arguments are not looked at.
pub fn user_operations_from_tokens(args: &Vec<AbiToken>) -> (r: Result<Vec<UserOperation>, ShapeError>)
    ensures
        match r {
            Ok(ops) => user_operations_of(tokens_view(args@)) == Ok::<
                Seq<UserOperationView>,
                ShapeError,
            >(operation_views(ops@)),
            Err(e) => user_operations_of(tokens_view(args@)) == Err::<
                Seq<UserOperationView>,
                ShapeError,
            >(e),
        },
{
    if args.len() == 0 {
        return Err(ShapeError::NotAnArray);
    }
    let elems = match &args[0] {
        AbiToken::Array(e) => e,
        _ => { return Err(ShapeError::NotAnArray); },
    };
    let mut ops: Vec<UserOperation> = Vec::new();
    let mut i: usize = 0;
    while i < elems.len()
        invariant
            i <= elems.len(),
            ops@.len() == i,
            args@.len() > 0,
            array_of(tokens_view(args@)[0]) == Some(tokens_view(elems@)),
            forall|k: int|
                0 <= k < i ==> #[trigger] user_operation_of(tokens_view(elems@)[k]) == Some(
                    ops@[k]@,
                ),
        decreases elems.len() - i,
    {
        match user_operation_from_token(&elems[i]) {
            Some(op) => {
                ops.push(op);
            },
            None => {
                assert(user_operation_of(tokens_view(elems@)[i as int]) is None);
                return Err(ShapeError::NotAnOperation);
            },
        }
        i += 1;
    }
    assert(operation_views(ops@) =~= Seq::new(
        elems@.len(),
        |i: int| user_operation_of(tokens_view(elems@)[i]).unwrap(),
    ));
    Ok(ops)
}

} // verus!
