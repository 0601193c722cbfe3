//! The pieces of Recursive Length Prefix (RLP) encoding that SDM data uses:
//! unsigned integers and item headers. Encoding and decoding are both stated
//! exactly; the work is done by `alloy_rlp`. The two decoding statements are
//! opaque: `reveal` them to reason about a particular input.

use vstd::prelude::*;

verus! {

/// Header of an RLP item: whether it is a list, and the length of its payload.
#[derive(Clone, Copy, Debug, PartialEq, Eq)]
pub struct RlpHeader {
    pub list: bool,
    pub payload_length: usize,
}

/// Decoding errors of RLP data.
#[derive(Clone, Copy, Debug, PartialEq, Eq)]
pub enum RlpError {
    Overflow,
    LeadingZero,
    InputTooShort,
    NonCanonicalSingleByte,
    NonCanonicalSize,
    UnexpectedLength,
    UnexpectedString,
    UnexpectedList,
    ListLengthMismatch { expected: usize, got: usize },
    Custom(&'static str),
}

#[verifier::external_type_specification]
#[verifier::external_body]
pub struct ExAlloyRlpError(alloy_rlp::Error);

/// `256` to the power `k`.
pub open spec fn pow256(k: nat) -> nat
    decreases k,
{
    if k == 0 {
        1
    } else {
        256 * pow256((k - 1) as nat)
    }
}

/// Big-endian bytes of `v` without leading zero bytes (a single byte for `v < 256`).
pub open spec fn be_bytes_trimmed(v: nat) -> Seq<u8>
    decreases v,
{
    if v < 256 {
        seq![v as u8]
    } else {
        be_bytes_trimmed(v / 256).push((v % 256) as u8)
    }
}

/// RLP encoding of an unsigned integer: `0x80` for zero, the byte itself below
/// `0x80`, and otherwise `0x80 + n` followed by the `n` big-endian bytes.
pub open spec fn spec_rlp_u64(v: u64) -> Seq<u8> {
    if v == 0 {
        seq![0x80u8]
    } else if v < 0x80 {
        seq![v as u8]
    } else {
        seq![(0x80 + be_bytes_trimmed(v as nat).len()) as u8] + be_bytes_trimmed(v as nat)
    }
}

/// RLP encoding of an item header. A payload shorter than 56 bytes takes one
/// byte (`0xC0 + len` for a list, `0x80 + len` for a string); a longer one takes
/// `0xF7 + n` (or `0xB7 + n`) followed by the `n` big-endian bytes of its length.
pub open spec fn spec_rlp_header(list: bool, payload_length: usize) -> Seq<u8> {
    let short_code: int = if list { 0xC0 } else { 0x80 };
    let long_code: int = if list { 0xF7 } else { 0xB7 };
    if payload_length < 56 {
        seq![(short_code + payload_length) as u8]
    } else {
        seq![(long_code + be_bytes_trimmed(payload_length as nat).len()) as u8] + be_bytes_trimmed(
            payload_length as nat,
        )
    }
}

/// RLP list whose payload is `payload`.
pub open spec fn spec_rlp_list(payload: Seq<u8>) -> Seq<u8> {
    spec_rlp_header(true, payload.len() as usize) + payload
}

/// Whether reading an item header from `buf` gives `h` and leaves `rest`. A
/// byte below `0x80` is a one-byte string, read without consuming anything.
/// Otherwise `buf` starts with the encoding of `h` (only the canonical form is
/// read), at least its payload length of bytes follows, and the payload of a
/// one-byte string is not itself below `0x80`.
pub open spec fn spec_rlp_header_read(buf: Seq<u8>, h: RlpHeader, rest: Seq<u8>) -> bool {
    if buf.len() > 0 && buf[0] < 0x80 {
        h == (RlpHeader { list: false, payload_length: 1 }) && rest == buf
    } else {
        &&& buf == spec_rlp_header(h.list, h.payload_length) + rest
        &&& h.payload_length <= rest.len()
        &&& (!h.list && h.payload_length == 1 ==> rest[0] >= 0x80)
    }
}

/// The header read from `buf` and the bytes after it; `None` when no header
/// can be read. At most one header and rest fit `spec_rlp_header_read`.
#[verifier::opaque]
pub open spec fn spec_rlp_header_decoding(buf: Seq<u8>) -> Option<(RlpHeader, Seq<u8>)> {
    if exists|h: RlpHeader, rest: Seq<u8>| #[trigger] spec_rlp_header_read(buf, h, rest) {
        Some(choose|h: RlpHeader, rest: Seq<u8>| #[trigger] spec_rlp_header_read(buf, h, rest))
    } else {
        None
    }
}

/// The integer read from `buf` and the bytes after it: `buf` starts with the
/// canonical encoding of the value; `None` when it starts with no such
/// encoding. At most one value and rest fit.
#[verifier::opaque]
pub open spec fn spec_rlp_u64_decoding(buf: Seq<u8>) -> Option<(u64, Seq<u8>)> {
    if exists|v: u64, rest: Seq<u8>| buf == #[trigger] spec_rlp_u64(v).add(rest) {
        Some(choose|v: u64, rest: Seq<u8>| buf == #[trigger] spec_rlp_u64(v).add(rest))
    } else {
        None
    }
}

proof fn lemma_be_bytes_len(v: nat, k: nat)
    requires
        k >= 1,
        v < pow256(k),
    ensures
        1 <= be_bytes_trimmed(v).len() <= k,
    decreases k,
{
    if v >= 256 {
        let p = pow256((k - 1) as nat);
        assert(k >= 2) by {
            if k == 1 {
                assert(pow256(0) == 1);
            }
        }
        assert(p >= 1) by {
            lemma_pow256_positive((k - 1) as nat);
        }
        assert(v / 256 < p) by (nonlinear_arith)
            requires
                v < 256 * p,
                p >= 1,
        ;
        lemma_be_bytes_len(v / 256, (k - 1) as nat);
    }
}

proof fn lemma_pow256_positive(k: nat)
    ensures
        pow256(k) >= 1,
    decreases k,
{
    if k > 0 {
        lemma_pow256_positive((k - 1) as nat);
    }
}

/// Encoding an integer below `2^64` takes between one and eight big-endian bytes.
pub proof fn lemma_be_bytes_u64_len(v: nat)
    requires
        v <= u64::MAX,
    ensures
        1 <= be_bytes_trimmed(v).len() <= 8,
{
    reveal_with_fuel(pow256, 9);
    assert(pow256(8) == 0x1_0000_0000_0000_0000);
    lemma_be_bytes_len(v, 8);
}

/// An encoded `u64` takes one to nine bytes.
pub proof fn lemma_rlp_u64_len(v: u64)
    ensures
        1 <= spec_rlp_u64(v).len() <= 9,
        v < 0x80 ==> spec_rlp_u64(v).len() == 1,
{
    lemma_be_bytes_u64_len(v as nat);
}

/// An encoded header takes one to nine bytes, one when the payload is shorter than 56 bytes.
pub proof fn lemma_rlp_header_len(list: bool, payload_length: usize)
    ensures
        1 <= spec_rlp_header(list, payload_length).len() <= 9,
        payload_length < 56 ==> spec_rlp_header(list, payload_length).len() == 1,
{
    lemma_be_bytes_u64_len(payload_length as nat);
}

/// `<u64 as alloy_rlp::Encodable>::encode`: appends the RLP encoding of `value` to `out`.
#[verifier::external_body]
pub(crate) fn rlp_encode_u64(value: u64, out: &mut Vec<u8>)
    ensures
        final(out)@ == old(out)@ + spec_rlp_u64(value),
{
    alloy_rlp::Encodable::encode(&value, out)
}

/// `<u64 as alloy_rlp::Encodable>::length`: the length of the RLP encoding of `value`.
#[verifier::external_body]
pub(crate) fn rlp_u64_length(value: u64) -> (len: usize)
    ensures
        len == spec_rlp_u64(value).len(),
{
    alloy_rlp::Encodable::length(&value)
}

/// `alloy_rlp::Header::encode`: appends the encoded header to `out`.
#[verifier::external_body]
pub(crate) fn rlp_encode_header(list: bool, payload_length: usize, out: &mut Vec<u8>)
    ensures
        final(out)@ == old(out)@ + spec_rlp_header(list, payload_length),
{
    alloy_rlp::Header { list, payload_length }.encode(out)
}

/// `alloy_rlp::Header::length`: the length of the encoded header.
#[verifier::external_body]
pub(crate) fn rlp_header_length(list: bool, payload_length: usize) -> (len: usize)
    ensures
        len == spec_rlp_header(list, payload_length).len(),
{
    alloy_rlp::Header { list, payload_length }.length()
}

/// `alloy_rlp::Header::length_with_payload`: the length of the header plus the payload.
#[verifier::external_body]
pub(crate) fn rlp_header_length_with_payload(list: bool, payload_length: usize) -> (len: usize)
    requires
        spec_rlp_header(list, payload_length).len() + payload_length <= usize::MAX,
    ensures
        len == spec_rlp_header(list, payload_length).len() + payload_length,
{
    alloy_rlp::Header { list, payload_length }.length_with_payload()
}

/// `alloy_rlp::Header::decode`: it reads what [`spec_rlp_header_decoding`]
/// says, and fails exactly where that is `None`. Consequences stated with it:
/// on success the rest is a suffix of `buf` that holds the whole payload, a
/// list header was read in its canonical form, and a canonical list header
/// followed by at least its payload length of bytes is read back.
#[verifier::external_body]
pub(crate) fn rlp_decode_header<'a>(buf: &'a [u8]) -> (res: Result<(RlpHeader, &'a [u8]), alloy_rlp::Error>)
    ensures
        match res {
            Ok((h, rest)) => spec_rlp_header_decoding(buf@) == Some((h, rest@)),
            Err(_) => spec_rlp_header_decoding(buf@) is None,
        },
        res matches Ok((h, rest)) ==> {
            &&& rest@.len() <= buf@.len()
            &&& rest@ == buf@.skip(buf@.len() - rest@.len())
            &&& h.payload_length <= rest@.len()
            &&& h.list ==> buf@ == spec_rlp_header(true, h.payload_length) + rest@
        },
        forall|l: usize, tail: Seq<u8>|
            #![trigger spec_rlp_header(true, l).add(tail)]
            buf@ == spec_rlp_header(true, l).add(tail) && l <= tail.len() ==> res is Ok && res->Ok_0.0
                == (RlpHeader { list: true, payload_length: l }) && res->Ok_0.1@ == tail,
{
    let mut rest = buf;
    match alloy_rlp::Header::decode(&mut rest) {
        Ok(h) => Ok((RlpHeader { list: h.list, payload_length: h.payload_length }, rest)),
        Err(e) => Err(e),
    }
}

/// `<u64 as alloy_rlp::Decodable>::decode`: it reads what
/// [`spec_rlp_u64_decoding`] says, and fails exactly where that is `None`: on
/// success the value was read in its canonical encoding, and the encoding of
/// any `u64`, whatever follows it, is read back.
#[verifier::external_body]
pub(crate) fn rlp_decode_u64<'a>(buf: &'a [u8]) -> (res: Result<(u64, &'a [u8]), alloy_rlp::Error>)
    ensures
        match res {
            Ok((v, rest)) => spec_rlp_u64_decoding(buf@) == Some((v, rest@)),
            Err(_) => spec_rlp_u64_decoding(buf@) is None,
        },
        res matches Ok((v, rest)) ==> buf@ == spec_rlp_u64(v) + rest@,
        forall|v: u64, tail: Seq<u8>|
            #![trigger spec_rlp_u64(v).add(tail)]
            buf@ == spec_rlp_u64(v).add(tail) ==> res is Ok && res->Ok_0.0 == v && res->Ok_0.1@
                == tail,
{
    let mut rest = buf;
    match <u64 as alloy_rlp::Decodable>::decode(&mut rest) {
        Ok(v) => Ok((v, rest)),
        Err(e) => Err(e),
    }
}

/// Converts an `alloy_rlp::Error` into the same variant of [`RlpError`].
#[verifier::external_body]
pub(crate) fn rlp_error_from(e: alloy_rlp::Error) -> RlpError {
    match e {
        alloy_rlp::Error::Overflow => RlpError::Overflow,
        alloy_rlp::Error::LeadingZero => RlpError::LeadingZero,
        alloy_rlp::Error::InputTooShort => RlpError::InputTooShort,
        alloy_rlp::Error::NonCanonicalSingleByte => RlpError::NonCanonicalSingleByte,
        alloy_rlp::Error::NonCanonicalSize => RlpError::NonCanonicalSize,
        alloy_rlp::Error::UnexpectedLength => RlpError::UnexpectedLength,
        alloy_rlp::Error::UnexpectedString => RlpError::UnexpectedString,
        alloy_rlp::Error::UnexpectedList => RlpError::UnexpectedList,
        alloy_rlp::Error::ListLengthMismatch { expected, got } => RlpError::ListLengthMismatch { expected, got },
        alloy_rlp::Error::Custom(s) => RlpError::Custom(s),
    }
}

} // verus!
