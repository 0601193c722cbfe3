//! The synthetic SDM transaction (type `0x7D`) that carries an [`SDMPayload`].
//!
//! Its input is the RLP encoding of the payload. Its EIP-2718 encoding is the
//! type byte followed by the input; its network encoding wraps that in an RLP
//! string header; its hash is the Keccak-256 digest of the EIP-2718 encoding.

use vstd::prelude::*;
use vstd::layout::size_of;
use crate::payload::{spec_payload_decoding, spec_payload_encoding, SDMGasEntry, SDMPayload, SDMPayloadView};
use crate::rlp::{
    lemma_rlp_header_len, rlp_encode_header, rlp_header_length_with_payload, spec_rlp_header,
    spec_rlp_header_read, RlpError, RlpHeader,
};

verus! {

/// Type byte for the synthetic SDM transaction.
pub const SDM_TX_TYPE_ID: u8 = 0x7D;

/// SDM tx is always at position 1 in the block (right after L1 info deposit tx
/// at position 0).
pub const SDM_TX_POSITION: usize = 1;

/// The Keccak-256 digest that `alloy_primitives::keccak256` computes of `data`.
pub uninterp spec fn keccak256_digest(data: Seq<u8>) -> Seq<u8>;

/// `alloy_primitives::keccak256`: the Keccak-256 digest of `data`.
#[verifier::external_body]
fn keccak256(data: &[u8]) -> (digest: [u8; 32])
    ensures
        digest@ == keccak256_digest(data@),
{
    alloy_primitives::keccak256(data).0
}

/// Synthetic SDM transaction carrying an [`SDMPayload`].
#[derive(Clone, Debug, PartialEq, Eq, Hash, Default)]
pub struct TxSdm {
    /// RLP payload for the synthetic transaction.
    pub payload: SDMPayload,
    input: Vec<u8>,
}

/// Error of decoding an SDM transaction from its EIP-2718 form.
#[derive(Clone, Copy, Debug, PartialEq, Eq)]
pub enum SdmTxDecodeError {
    /// The payload could not be decoded.
    Rlp(RlpError),
    /// The type byte is not [`SDM_TX_TYPE_ID`].
    UnexpectedType(u8),
}

/// EIP-2718 encoding of an SDM transaction whose input is `input`.
pub open spec fn spec_eip2718_encoding(input: Seq<u8>) -> Seq<u8> {
    seq![SDM_TX_TYPE_ID] + input
}

/// Network encoding of an SDM transaction whose input is `input`: the EIP-2718
/// encoding behind an RLP string header.
pub open spec fn spec_network_encoding(input: Seq<u8>) -> Seq<u8> {
    spec_rlp_header(false, (input.len() + 1) as usize) + spec_eip2718_encoding(input)
}

/// Whether decoding a payload that decoding can give back maps to this result
/// of decoding a transaction.
pub open spec fn spec_tx_decoded(
    res: Result<(TxSdm, &[u8]), SdmTxDecodeError>,
    buf: Seq<u8>,
) -> bool {
    match spec_payload_decoding(buf) {
        Ok((p, rest)) => res is Ok && res->Ok_0.0.spec_payload() == p && res->Ok_0.0.spec_input()
            == spec_payload_encoding(p) && res->Ok_0.1@ == rest,
        Err(Some(err)) => res is Err && res->Err_0 == SdmTxDecodeError::Rlp(err),
        Err(None) => res is Err && res->Err_0 is Rlp,
    }
}

impl TxSdm {
    /// The transaction input.
    pub closed spec fn spec_input(&self) -> Seq<u8> {
        self.input@
    }

    /// The transaction payload.
    pub closed spec fn spec_payload(&self) -> SDMPayloadView {
        self.payload@
    }

    /// The payload that the contracts speak of: the public `payload` field. Its
    /// field cannot appear in a public contract, since `input` is private.
    pub fn payload(&self) -> (payload: &SDMPayload)
        ensures
            payload@ == self.spec_payload(),
    {
        &self.payload
    }

    /// Construct an SDM transaction from its decoded payload.
    pub fn new(payload: SDMPayload) -> (tx: TxSdm)
        requires
            payload.encoding_fits(),
        ensures
            tx.spec_payload() == payload@,
            tx.spec_input() == spec_payload_encoding(payload@),
    {
        let input = payload.to_rlp_bytes();
        TxSdm { payload, input }
    }

    /// The transaction input: the RLP encoding of the payload it was built from.
    pub fn input(&self) -> (input: &[u8])
        ensures
            input@ == self.spec_input(),
    {
        self.input.as_slice()
    }

    /// Encoded length of the transaction body.
    pub fn rlp_encoded_length(&self) -> (len: usize)
        ensures
            len == self.spec_input().len(),
    {
        self.input.len()
    }

    /// Encoded length including the type byte.
    pub fn eip2718_encoded_length(&self) -> (len: usize)
        requires
            self.spec_input().len() < usize::MAX,
        ensures
            len == spec_eip2718_encoding(self.spec_input()).len(),
    {
        self.rlp_encoded_length() + 1
    }

    /// Encoded length including the network wrapper header.
    pub fn network_encoded_length(&self) -> (len: usize)
        requires
            spec_network_encoding(self.spec_input()).len() <= usize::MAX,
        ensures
            len == spec_network_encoding(self.spec_input()).len(),
    {
        rlp_header_length_with_payload(false, self.eip2718_encoded_length())
    }

    /// Network encode the transaction.
    pub fn network_encode(&self, out: &mut Vec<u8>)
        requires
            spec_network_encoding(self.spec_input()).len() <= usize::MAX,
        ensures
            final(out)@ == old(out)@ + spec_network_encoding(self.spec_input()),
    {
        rlp_encode_header(false, self.eip2718_encoded_length(), out);
        self.encode_2718(out);
        assert(out@ =~= old(out)@ + spec_network_encoding(self.spec_input()));
    }

    /// Calculates a heuristic for the in-memory size of the transaction.
    pub fn size(&self) -> (size: usize)
        requires
            size_of::<SDMPayload>() + self.spec_input().len() + self.spec_payload().entries.len()
                * size_of::<SDMGasEntry>() <= usize::MAX,
        ensures
            size == size_of::<SDMPayload>() + self.spec_input().len() + self.spec_payload().entries.len()
                * size_of::<SDMGasEntry>(),
    {
        let entry_size = core::mem::size_of::<SDMGasEntry>();
        let n = self.payload.entries.len();
        assert(n * entry_size <= usize::MAX) by (nonlinear_arith)
            requires
                n * entry_size <= usize::MAX - self.spec_input().len() - size_of::<SDMPayload>(),
                self.spec_input().len() >= 0,
        ;
        core::mem::size_of::<SDMPayload>() + self.input.len() + n * entry_size
    }

    /// Calculate the transaction hash: the Keccak-256 digest of the EIP-2718 encoding.
    pub fn tx_hash(&self) -> (hash: [u8; 32])
        requires
            self.spec_input().len() < usize::MAX,
        ensures
            hash@ == keccak256_digest(spec_eip2718_encoding(self.spec_input())),
    {
        let mut buf = Vec::with_capacity(self.eip2718_encoded_length());
        self.encode_2718(&mut buf);
        assert(buf@ =~= spec_eip2718_encoding(self.spec_input()));
        keccak256(buf.as_slice())
    }

    /// The EIP-2718 type byte of the transaction.
    pub fn ty(&self) -> (ty: u8)
        ensures
            ty == SDM_TX_TYPE_ID,
    {
        SDM_TX_TYPE_ID
    }

    /// Whether `ty` is the type byte of SDM transactions.
    pub fn is_type(ty: u8) -> (res: bool)
        ensures
            res == (ty == SDM_TX_TYPE_ID),
    {
        ty == SDM_TX_TYPE_ID
    }

    /// The EIP-2718 type flag of the transaction.
    pub fn type_flag(&self) -> (flag: Option<u8>)
        ensures
            flag == Some(SDM_TX_TYPE_ID),
    {
        Some(SDM_TX_TYPE_ID)
    }

    /// Length of the EIP-2718 encoding.
    pub fn encode_2718_len(&self) -> (len: usize)
        requires
            self.spec_input().len() < usize::MAX,
        ensures
            len == spec_eip2718_encoding(self.spec_input()).len(),
    {
        self.eip2718_encoded_length()
    }

    /// Appends the EIP-2718 encoding (type byte, then input) to `out`.
    pub fn encode_2718(&self, out: &mut Vec<u8>)
        ensures
            final(out)@ == old(out)@ + spec_eip2718_encoding(self.spec_input()),
    {
        out.push(SDM_TX_TYPE_ID);
        out.extend_from_slice(self.input.as_slice());
        assert(out@ =~= old(out)@ + spec_eip2718_encoding(self.spec_input()));
    }

    /// The EIP-2718 encoding as a new vector.
    pub fn encoded_2718(&self) -> (encoded: Vec<u8>)
        requires
            self.spec_input().len() < usize::MAX,
        ensures
            encoded@ == spec_eip2718_encoding(self.spec_input()),
    {
        let mut out = Vec::with_capacity(self.encode_2718_len());
        self.encode_2718(&mut out);
        assert(out@ =~= spec_eip2718_encoding(self.spec_input()));
        out
    }

    /// Appends the RLP form of the transaction (its input) to `out`.
    pub fn encode(&self, out: &mut Vec<u8>)
        ensures
            final(out)@ == old(out)@ + self.spec_input(),
    {
        out.extend_from_slice(self.input.as_slice());
        assert(out@ =~= old(out)@ + self.spec_input());
    }

    /// Length of the RLP form of the transaction.
    pub fn length(&self) -> (len: usize)
        ensures
            len == self.spec_input().len(),
    {
        self.rlp_encoded_length()
    }

    /// Decodes an SDM transaction from the start of `buf` (its payload) and
    /// returns it with the bytes after it.
    pub fn decode(buf: &[u8]) -> (res: Result<(TxSdm, &[u8]), SdmTxDecodeError>)
        ensures
            spec_tx_decoded(res, buf@),
            forall|p: SDMPayloadView, tail: Seq<u8>|
                #![trigger spec_payload_encoding(p).add(tail)]
                buf@ == spec_payload_encoding(p).add(tail) ==> res is Ok && res->Ok_0.0.spec_payload()
                    == p && res->Ok_0.1@ == tail,
    {
        let buf_len = buf.len();
        match SDMPayload::decode(buf) {
            Ok((payload, rest)) => {
                assert(payload.encoding_fits());
                Ok((TxSdm::new(payload), rest))
            },
            Err(err) => Err(SdmTxDecodeError::Rlp(err)),
        }
    }

    /// Decodes the transaction that follows the type byte `ty` of an EIP-2718 encoding.
    pub fn typed_decode(ty: u8, buf: &[u8]) -> (res: Result<(TxSdm, &[u8]), SdmTxDecodeError>)
        ensures
            ty != SDM_TX_TYPE_ID ==> res == Err::<(TxSdm, &[u8]), _>(
                SdmTxDecodeError::UnexpectedType(ty),
            ),
            ty == SDM_TX_TYPE_ID ==> spec_tx_decoded(res, buf@),
            forall|p: SDMPayloadView, tail: Seq<u8>|
                #![trigger spec_payload_encoding(p).add(tail)]
                ty == SDM_TX_TYPE_ID && buf@ == spec_payload_encoding(p).add(tail) ==> res is Ok
                    && res->Ok_0.0.spec_payload() == p && res->Ok_0.1@ == tail,
    {
        if ty != SDM_TX_TYPE_ID {
            return Err(SdmTxDecodeError::UnexpectedType(ty));
        }
        TxSdm::decode(buf)
    }

    /// Decodes an SDM transaction that carries no type byte.
    pub fn fallback_decode(buf: &[u8]) -> (res: Result<(TxSdm, &[u8]), SdmTxDecodeError>)
        ensures
            spec_tx_decoded(res, buf@),
            forall|p: SDMPayloadView, tail: Seq<u8>|
                #![trigger spec_payload_encoding(p).add(tail)]
                buf@ == spec_payload_encoding(p).add(tail) ==> res is Ok && res->Ok_0.0.spec_payload()
                    == p && res->Ok_0.1@ == tail,
    {
        TxSdm::decode(buf)
    }
}

/// The serialized fields of an SDM transaction: gas and value, which must be
/// zero when present, and the input bytes or, without them, the payload.
#[derive(Clone, Debug)]
pub struct TxSdmSerdeHelper {
    pub gas: Option<u64>,
    pub value: Option<u128>,
    pub input: Option<Vec<u8>>,
    pub payload: Option<SDMPayload>,
}

impl TxSdmSerdeHelper {
    /// The serialized fields of `tx`: zero gas and value, and its input.
    pub fn from_tx(tx: TxSdm) -> (helper: TxSdmSerdeHelper)
        ensures
            helper.gas == Some(0u64),
            helper.value == Some(0u128),
            helper.input is Some && helper.input->Some_0@ == tx.spec_input(),
            helper.payload is None,
    {
        TxSdmSerdeHelper { gas: Some(0), value: Some(0), input: Some(tx.input), payload: None }
    }
}

impl TxSdm {
    /// Rebuilds an SDM transaction from its serialized fields: non-zero gas or
    /// value is refused; the payload comes from the input bytes when they are
    /// present (and must decode), else from the payload field.
    pub fn try_from_helper(value: TxSdmSerdeHelper) -> (res: Result<TxSdm, &'static str>)
        requires
            value.input is None && value.payload is Some ==> value.payload->Some_0.encoding_fits(),
        ensures
            value.gas matches Some(g) && g != 0 ==> res is Err && res->Err_0@
                == "sdm transaction gas must be 0"@,
            !(value.gas matches Some(g) && g != 0) && (value.value matches Some(v) && v != 0) ==> res
                is Err && res->Err_0@ == "sdm transaction value must be 0"@,
            !(value.gas matches Some(g) && g != 0) && !(value.value matches Some(v) && v != 0) ==> match value.input {
                Some(input) => match spec_payload_decoding(input@) {
                    Ok((p, _)) => res is Ok && res->Ok_0.spec_payload() == p && res->Ok_0.spec_input()
                        == spec_payload_encoding(p),
                    Err(_) => res is Err && res->Err_0@ == "invalid SDM transaction input"@,
                },
                None => match value.payload {
                    Some(p) => res is Ok && res->Ok_0.spec_payload() == p@ && res->Ok_0.spec_input()
                        == spec_payload_encoding(p@),
                    None => res is Err && res->Err_0@ == "missing SDM transaction input"@,
                },
            },
    {
        if let Some(gas) = value.gas {
            if gas != 0 {
                return Err("sdm transaction gas must be 0");
            }
        }
        if let Some(v) = value.value {
            if v != 0 {
                return Err("sdm transaction value must be 0");
            }
        }
        let payload = if let Some(input) = value.input {
            let input_len = input.len();
            match SDMPayload::from_rlp_bytes(input.as_slice()) {
                Some(p) => p,
                None => {
                    return Err("invalid SDM transaction input");
                },
            }
        } else if let Some(payload) = value.payload {
            payload
        } else {
            return Err("missing SDM transaction input");
        };
        Ok(TxSdm::new(payload))
    }
}

/// Build an SDM transaction from warming refund entries.
pub fn build_sdm_tx(entries: Vec<SDMGasEntry>) -> (tx: TxSdm)
    requires
        spec_payload_encoding(SDMPayloadView { version: 1, entries: entries@ }).len() <= usize::MAX,
    ensures
        tx.spec_payload() == (SDMPayloadView { version: 1, entries: entries@ }),
        tx.spec_input() == spec_payload_encoding(tx.spec_payload()),
{
    TxSdm::new(SDMPayload { version: 1, entries })
}

/// Check if a transaction type byte identifies an SDM transaction.
pub fn is_sdm_tx(ty: u8) -> (res: bool)
    ensures
        res == (ty == SDM_TX_TYPE_ID),
{
    ty == SDM_TX_TYPE_ID
}

/// Extract the SDM payload from an SDM transaction.
pub fn extract_sdm_payload_from_tx(tx: &TxSdm) -> (payload: Option<SDMPayload>)
    ensures
        payload is Some && payload->Some_0@ == tx.spec_payload(),
{
    Some(tx.payload.copied())
}

/// The network form of a transaction with a non-empty input is an RLP string
/// holding its EIP-2718 encoding: it is the string header that
/// `alloy_rlp::Header` writes for that length (one byte below 56 bytes of
/// payload, the long form from 56 on), followed by the EIP-2718 encoding, and
/// reading an RLP header from it gives back that string header and leaves
/// exactly the EIP-2718 encoding.
pub proof fn lemma_network_encoding_is_rlp_string(input: Seq<u8>)
    requires
        1 <= input.len() < usize::MAX,
    ensures
        spec_network_encoding(input) == spec_rlp_header(false, (input.len() + 1) as usize)
            + spec_eip2718_encoding(input),
        spec_rlp_header_read(
            spec_network_encoding(input),
            RlpHeader { list: false, payload_length: (input.len() + 1) as usize },
            spec_eip2718_encoding(input),
        ),
        spec_network_encoding(input).len() == spec_rlp_header(false, (input.len() + 1) as usize).len()
            + input.len() + 1,
{
    let l = (input.len() + 1) as usize;
    let enc = spec_network_encoding(input);
    lemma_rlp_header_len(false, l);
    crate::rlp::lemma_be_bytes_u64_len(l as nat);
    assert(enc[0] == spec_rlp_header(false, l)[0]);
    assert(enc[0] >= 0x80);
}

} // verus!
