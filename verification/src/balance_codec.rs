//! The stored form of a mana balance: the bytes that `bincode` writes for a
//! `u64`, as the key-value stores keep balances.

use vstd::prelude::*;
use vstd::string::*;
use crate::error::CommonError;
use crate::text::join2;

verus! {

/// The error type of `bincode`.
#[verifier::external_type_specification]
#[verifier::external_body]
pub struct ExBincodeErrorKind(bincode::ErrorKind);

/// The eight bytes of `a`, least significant first.
pub open spec fn u64_le_bytes(a: u64) -> Seq<u8> {
    seq![
        (a & 0xff) as u8,
        ((a >> 8u64) & 0xff) as u8,
        ((a >> 16u64) & 0xff) as u8,
        ((a >> 24u64) & 0xff) as u8,
        ((a >> 32u64) & 0xff) as u8,
        ((a >> 40u64) & 0xff) as u8,
        ((a >> 48u64) & 0xff) as u8,
        ((a >> 56u64) & 0xff) as u8,
    ]
}

/// The number whose bytes, least significant first, are the first eight of `b`.
pub open spec fn le_u64(b: Seq<u8>) -> u64 {
    (b[0] as u64) | ((b[1] as u64) << 8u64) | ((b[2] as u64) << 16u64) | ((b[3] as u64) << 24u64) | ((b[4] as u64)
        << 32u64) | ((b[5] as u64) << 40u64) | ((b[6] as u64) << 48u64) | ((b[7] as u64) << 56u64)
}

/// `bincode::serialize` on a `u64`. Its default options write a `u64` as
/// eight bytes, least significant first, into a vector without a size
/// limit, which does not fail; this contract is trusted.
#[verifier::external_body]
fn bincode_serialize_u64(amount: u64) -> (r: Result<Vec<u8>, Box<bincode::ErrorKind>>)
    ensures
        r is Ok,
        r is Ok ==> r->Ok_0@ == u64_le_bytes(amount),
{
    bincode::serialize(&amount)
}

/// `bincode::deserialize::<u64>`. Its default options read eight bytes,
/// least significant first, fail with an end-of-input error when fewer are
/// given, and ignore any bytes after them; this contract is trusted.
#[verifier::external_body]
fn bincode_deserialize_u64(bytes: &[u8]) -> (r: Result<u64, Box<bincode::ErrorKind>>)
    ensures
        (r is Ok) == (bytes@.len() >= 8),
        r is Ok ==> r->Ok_0 == le_u64(bytes@),
{
    bincode::deserialize::<u64>(bytes)
}

/// The `Display` text of a `bincode` error. Nothing is promised of it.
#[verifier::external_body]
fn bincode_error_text(e: &Box<bincode::ErrorKind>) -> (r: String) {
    format!("{}", e)
}

/// The stored form of a balance.
pub fn encode_balance(amount: u64) -> (r: Result<Vec<u8>, CommonError>)
    ensures
        r matches Ok(b) && b@ == u64_le_bytes(amount),
{
    match bincode_serialize_u64(amount) {
        Ok(b) => Ok(b),
        Err(e) => Err(
            CommonError::SerializationError(join2("Failed to serialize balance: ", bincode_error_text(&e).as_str())),
        ),
    }
}

/// The balance that a stored form holds; refused, as a deserialization
/// error, when fewer than eight bytes are stored.
pub fn decode_balance(bytes: &[u8]) -> (r: Result<u64, CommonError>)
    ensures
        (r is Ok) == (bytes@.len() >= 8),
        r matches Ok(v) ==> v == le_u64(bytes@),
        r matches Err(e) ==> e is DeserializationError,
{
    match bincode_deserialize_u64(bytes) {
        Ok(v) => Ok(v),
        Err(e) => Err(
            CommonError::DeserializationError(join2("Failed to deserialize balance: ", bincode_error_text(&e).as_str())),
        ),
    }
}

/// A stored balance reads back as the balance that was stored: the stored
/// form is eight bytes, and reading them gives the number.
pub proof fn law_balance_round_trip(a: u64)
    ensures
        u64_le_bytes(a).len() == 8,
        le_u64(u64_le_bytes(a)) == a,
{
    let b = u64_le_bytes(a);
    assert(b[0] == (a & 0xff) as u8);
    assert(b[7] == ((a >> 56u64) & 0xff) as u8);
    assert((((a & 0xff) as u8) as u64) | (((((a >> 8u64) & 0xff) as u8) as u64) << 8u64) | (((((a >> 16u64) & 0xff) as u8) as u64)
        << 16u64) | (((((a >> 24u64) & 0xff) as u8) as u64) << 24u64) | (((((a >> 32u64) & 0xff) as u8) as u64) << 32u64) | (((((a
        >> 40u64) & 0xff) as u8) as u64) << 40u64) | (((((a >> 48u64) & 0xff) as u8) as u64) << 48u64) | (((((a >> 56u64) & 0xff)
        as u8) as u64) << 56u64) == a) by (bit_vector);
}

} // verus!
