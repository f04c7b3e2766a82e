//! A codec for 32-bit unsigned integers written as four big-endian bytes,
//! with the decode outcome that the connection consumes.
use bincode::Options;
use vstd::prelude::*;

verus! {

/// What a codec reports after trying to decode one message from the front
/// of a byte buffer.
#[derive(Clone, Copy, Debug, PartialEq, Eq, Structural)]
pub enum DecodeOutcome {
    /// A whole message was decoded from the first `usize` bytes.
    Complete(usize),
    /// The buffer is a prefix of a message: more bytes are needed.
    Incomplete,
    /// The buffer can never start a valid message.
    Malformed,
}

#[verifier::external_type_specification]
#[verifier::external_body]
pub struct ExBincodeErrorKind(bincode::ErrorKind);

/// The four bytes of `v`, most significant first.
pub open spec fn be_u32_bytes(v: u32) -> Seq<u8> {
    seq![(v >> 24u32) as u8, (v >> 16u32) as u8, (v >> 8u32) as u8, v as u8]
}

/// The integer whose big-endian bytes are the first four of `b`.
pub open spec fn be_u32_value(b: Seq<u8>) -> u32
    recommends
        b.len() >= 4,
{
    ((b[0] as u32) << 24u32) | ((b[1] as u32) << 16u32) | ((b[2] as u32) << 8u32) | (b[3] as u32)
}

/// How the integer codec judges a buffer: four bytes make a message, fewer
/// are a prefix of one; no buffer is malformed.
pub open spec fn u32_outcome(b: Seq<u8>) -> DecodeOutcome {
    if b.len() >= 4 {
        DecodeOutcome::Complete(4)
    } else {
        DecodeOutcome::Incomplete
    }
}

/// Relies on bincode 1.3's `Options::serialize` with fixed-width, big-endian
/// integers: a `u32` is written as its four bytes, most significant first,
/// and with no size limit the write into a `Vec` cannot fail.
#[verifier::external_body]
fn bincode_serialize_u32(v: u32) -> (r: Result<Vec<u8>, Box<bincode::ErrorKind>>)
    ensures
        r is Ok,
        r is Ok ==> r->Ok_0@ == be_u32_bytes(v),
{
    bincode::options().with_fixint_encoding().with_big_endian().allow_trailing_bytes().serialize(
        &v,
    )
}

/// Relies on bincode 1.3's `Options::deserialize` with fixed-width,
/// big-endian integers and trailing bytes allowed: a `u32` is read from the
/// first four bytes, most significant first; a slice shorter than four bytes
/// gives an unexpected-end-of-input error.
#[verifier::external_body]
fn bincode_deserialize_u32(b: &[u8]) -> (r: Result<u32, Box<bincode::ErrorKind>>)
    ensures
        r is Ok <==> b@.len() >= 4,
        r is Ok ==> r->Ok_0 == be_u32_value(b@),
{
    bincode::options().with_fixint_encoding().with_big_endian().allow_trailing_bytes().deserialize(
        b,
    )
}

/// Encodes `v` as four big-endian bytes.
pub fn encode_u32(v: u32) -> (r: Vec<u8>)
    ensures
        r@ == be_u32_bytes(v),
{
    match bincode_serialize_u32(v) {
        Ok(b) => b,
        Err(_) => {
            proof {
                assert(false);
            }
            Vec::new()
        },
    }
}

/// Decodes one integer from the front of `b`: the outcome that a connection
/// consumes, and the value when the outcome is `Complete`.
pub fn decode_u32(b: &[u8]) -> (r: (DecodeOutcome, Option<u32>))
    ensures
        r.0 == u32_outcome(b@),
        r.1 == (if b@.len() >= 4 {
            Some(be_u32_value(b@))
        } else {
            None
        }),
{
    match bincode_deserialize_u32(b) {
        Ok(v) => (DecodeOutcome::Complete(4), Some(v)),
        Err(_) => (DecodeOutcome::Incomplete, None),
    }
}

/// Decoding the bytes of an integer, whatever follows them, consumes exactly
/// those four bytes and gives the integer back.
pub proof fn lemma_u32_round_trip(v: u32, rest: Seq<u8>)
    ensures
        u32_outcome(be_u32_bytes(v) + rest) == DecodeOutcome::Complete(4),
        be_u32_value(be_u32_bytes(v) + rest) == v,
{
    let b = be_u32_bytes(v) + rest;
    assert(b[0] == (v >> 24u32) as u8);
    assert(b[1] == (v >> 16u32) as u8);
    assert(b[2] == (v >> 8u32) as u8);
    assert(b[3] == v as u8);
    assert(((((v >> 24u32) as u8) as u32) << 24u32) | ((((v >> 16u32) as u8) as u32) << 16u32)
        | ((((v >> 8u32) as u8) as u32) << 8u32) | ((v as u8) as u32) == v) by (bit_vector);
}

} // verus!
