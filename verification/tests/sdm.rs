use op_sdm::payload::{SDMGasEntry, SDMPayload};
use op_sdm::rlp::RlpError;
use op_sdm::transaction::{
    build_sdm_tx, extract_sdm_payload_from_tx, is_sdm_tx, SdmTxDecodeError, TxSdm,
    TxSdmSerdeHelper, SDM_TX_TYPE_ID,
};

fn two_entry_payload() -> SDMPayload {
    SDMPayload {
        version: 1,
        entries: vec![
            SDMGasEntry { index: 2, gas_refund: 2500 },
            SDMGasEntry { index: 3, gas_refund: 4500 },
        ],
    }
}

#[test]
fn sdm_gas_entry_rlp_roundtrip() {
    let entry = SDMGasEntry { index: 2, gas_refund: 2500 };
    let mut buf = Vec::new();
    entry.encode(&mut buf);
    let (decoded, _) = SDMGasEntry::decode(&buf[..]).unwrap();
    assert_eq!(entry, decoded);
}

#[test]
fn sdm_payload_rlp_roundtrip() {
    let payload = two_entry_payload();
    let mut buf = Vec::new();
    payload.encode(&mut buf);
    let (decoded, _) = SDMPayload::decode(&buf[..]).unwrap();
    assert_eq!(payload, decoded);
}

#[test]
fn sdm_payload_empty_entries() {
    let payload = SDMPayload { version: 1, entries: vec![] };
    let mut buf = Vec::new();
    payload.encode(&mut buf);
    let (decoded, _) = SDMPayload::decode(&buf[..]).unwrap();
    assert_eq!(payload, decoded);
}

#[test]
fn gas_refund_for_idx_found() {
    let payload = two_entry_payload();
    assert_eq!(payload.gas_refund_for_idx(2), Some(2500));
    assert_eq!(payload.gas_refund_for_idx(3), Some(4500));
}

#[test]
fn gas_refund_for_idx_not_found() {
    let payload =
        SDMPayload { version: 1, entries: vec![SDMGasEntry { index: 2, gas_refund: 2500 }] };
    assert_eq!(payload.gas_refund_for_idx(0), None);
    assert_eq!(payload.gas_refund_for_idx(99), None);
}

#[test]
fn gas_refund_for_idx_empty() {
    let payload = SDMPayload { version: 1, entries: vec![] };
    assert_eq!(payload.gas_refund_for_idx(0), None);
}

#[test]
fn sdm_payload_to_from_rlp_bytes() {
    let payload = two_entry_payload();
    let bytes = payload.to_rlp_bytes();
    let decoded = SDMPayload::from_rlp_bytes(&bytes).unwrap();
    assert_eq!(payload, decoded);
}

#[test]
fn build_sdm_tx_creates_valid_sdm() {
    let entries = vec![
        SDMGasEntry { index: 2, gas_refund: 2500 },
        SDMGasEntry { index: 3, gas_refund: 4500 },
    ];
    let tx = build_sdm_tx(entries.clone());

    assert_eq!(tx.ty(), SDM_TX_TYPE_ID);
    let extracted = extract_sdm_payload_from_tx(&tx).unwrap();
    assert_eq!(extracted.version, 1);
    assert_eq!(extracted.entries, entries);
}

#[test]
fn is_sdm_tx_checks() {
    assert!(is_sdm_tx(SDM_TX_TYPE_ID));
    assert!(!is_sdm_tx(0x7E));
}

#[test]
fn sdm_tx_eip2718_roundtrip() {
    let tx = build_sdm_tx(vec![SDMGasEntry { index: 1, gas_refund: 2500 }]);
    let encoded = tx.encoded_2718();
    let (decoded, _) = TxSdm::typed_decode(encoded[0], &encoded[1..]).unwrap();
    assert_eq!(decoded, tx);
}

#[test]
fn sdm_tx_rlp_roundtrip() {
    let tx = build_sdm_tx(vec![SDMGasEntry { index: 1, gas_refund: 2500 }]);
    let mut buf = Vec::new();
    tx.encode(&mut buf);
    let (decoded, _) = TxSdm::decode(&buf).unwrap();
    assert_eq!(decoded, tx);
}

#[test]
fn gas_entry_encoding_bytes() {
    // [index 2, refund 2500 = 0x09C4] as an RLP list of 4 payload bytes.
    let entry = SDMGasEntry { index: 2, gas_refund: 2500 };
    let mut buf = Vec::new();
    entry.encode(&mut buf);
    assert_eq!(buf, vec![0xC4, 0x02, 0x82, 0x09, 0xC4]);
    assert_eq!(entry.length(), 5);
}

#[test]
fn payload_encoding_bytes() {
    let payload = two_entry_payload();
    let bytes = payload.to_rlp_bytes();
    assert_eq!(
        bytes,
        vec![0xCC, 0x01, 0xCA, 0xC4, 0x02, 0x82, 0x09, 0xC4, 0xC4, 0x03, 0x82, 0x11, 0x94]
    );
    assert_eq!(payload.length(), bytes.len());
    let empty = SDMPayload { version: 1, entries: vec![] }.to_rlp_bytes();
    assert_eq!(empty, vec![0xC2, 0x01, 0xC0]);
}

#[test]
fn payload_encoding_with_long_list() {
    let entries: Vec<SDMGasEntry> =
        (0..20).map(|i| SDMGasEntry { index: i, gas_refund: 1_000_000 + i }).collect();
    let payload = SDMPayload { version: 7, entries };
    let bytes = payload.to_rlp_bytes();
    assert_eq!(bytes.len(), payload.length());
    // A payload longer than 55 bytes takes a long-form list header.
    assert_eq!(bytes[0], 0xF8);
    let decoded = SDMPayload::from_rlp_bytes(&bytes).unwrap();
    assert_eq!(decoded, payload);
}

#[test]
fn large_integers_encode_like_alloy_rlp() {
    for value in [0u64, 1, 0x7F, 0x80, 0xFF, 0x100, 0xFFFF_FFFF, u64::MAX] {
        let entry = SDMGasEntry { index: value, gas_refund: value };
        let mut buf = Vec::new();
        entry.encode(&mut buf);
        let mut expected = Vec::new();
        alloy_rlp::Header {
            list: true,
            payload_length: 2 * alloy_rlp::Encodable::length(&value),
        }
        .encode(&mut expected);
        alloy_rlp::Encodable::encode(&value, &mut expected);
        alloy_rlp::Encodable::encode(&value, &mut expected);
        assert_eq!(buf, expected);
        let (decoded, rest) = SDMGasEntry::decode(&buf).unwrap();
        assert_eq!(decoded, entry);
        assert!(rest.is_empty());
    }
}

#[test]
fn decoding_leaves_trailing_bytes() {
    let payload = two_entry_payload();
    let mut bytes = payload.to_rlp_bytes();
    bytes.extend_from_slice(&[0xAA, 0xBB]);
    let (decoded, rest) = SDMPayload::decode(&bytes).unwrap();
    assert_eq!(decoded, payload);
    assert_eq!(rest, &[0xAA, 0xBB]);
    assert_eq!(SDMPayload::from_rlp_bytes(&bytes), Some(payload));
}

#[test]
fn decoding_a_string_is_unexpected_string() {
    // 0x83 starts an RLP string, not a list.
    let bytes = [0x83, 0x01, 0x02, 0x03];
    assert_eq!(SDMPayload::decode(&bytes).unwrap_err(), RlpError::UnexpectedString);
    assert_eq!(SDMGasEntry::decode(&bytes).unwrap_err(), RlpError::UnexpectedString);
    assert_eq!(SDMPayload::from_rlp_bytes(&bytes), None);
}

#[test]
fn decoding_a_short_list_body_is_unexpected_length() {
    // The entry list claims 3 payload bytes but its fields take 2.
    let bytes = [0xC3, 0x01, 0x02, 0x03];
    assert_eq!(SDMGasEntry::decode(&bytes).unwrap_err(), RlpError::UnexpectedLength);
}

#[test]
fn decoding_truncated_input_fails() {
    let bytes = two_entry_payload().to_rlp_bytes();
    assert_eq!(SDMPayload::decode(&bytes[..bytes.len() - 1]).unwrap_err(), RlpError::InputTooShort);
    assert_eq!(SDMPayload::decode(&[]).unwrap_err(), RlpError::InputTooShort);
    assert_eq!(SDMPayload::from_rlp_bytes(&[]), None);
    // A non-canonical integer (leading zero) is refused.
    assert_eq!(
        SDMGasEntry::decode(&[0xC4, 0x02, 0x82, 0x00, 0x09]).unwrap_err(),
        RlpError::LeadingZero
    );
    // A list where an integer is expected.
    assert_eq!(SDMGasEntry::decode(&[0xC2, 0xC0, 0x01]).unwrap_err(), RlpError::UnexpectedList);
}

#[test]
fn typed_decode_refuses_other_types() {
    let tx = build_sdm_tx(vec![]);
    let encoded = tx.encoded_2718();
    assert_eq!(
        TxSdm::typed_decode(0x7E, &encoded[1..]).unwrap_err(),
        SdmTxDecodeError::UnexpectedType(0x7E)
    );
    assert!(matches!(
        TxSdm::fallback_decode(&[0x80]).unwrap_err(),
        SdmTxDecodeError::Rlp(RlpError::UnexpectedString)
    ));
    let (decoded, _) = TxSdm::fallback_decode(&encoded[1..]).unwrap();
    assert_eq!(decoded, tx);
}

#[test]
fn transaction_encodings() {
    let tx = build_sdm_tx(vec![SDMGasEntry { index: 1, gas_refund: 2500 }]);
    let input = tx.input().to_vec();
    assert_eq!(input, tx.payload.to_rlp_bytes());
    assert_eq!(tx.rlp_encoded_length(), input.len());
    assert_eq!(tx.length(), input.len());
    assert_eq!(tx.eip2718_encoded_length(), input.len() + 1);
    assert_eq!(tx.encode_2718_len(), input.len() + 1);
    assert_eq!(tx.type_flag(), Some(SDM_TX_TYPE_ID));
    assert!(TxSdm::is_type(SDM_TX_TYPE_ID));
    assert!(!TxSdm::is_type(2));

    let mut envelope = vec![SDM_TX_TYPE_ID];
    envelope.extend_from_slice(&input);
    assert_eq!(tx.encoded_2718(), envelope);

    let mut network = Vec::new();
    tx.network_encode(&mut network);
    let mut expected = vec![0x80 + envelope.len() as u8];
    expected.extend_from_slice(&envelope);
    assert_eq!(network, expected);
    assert_eq!(tx.network_encoded_length(), expected.len());
}

#[test]
fn tx_hash_is_keccak_of_envelope() {
    let tx = build_sdm_tx(vec![SDMGasEntry { index: 1, gas_refund: 2500 }]);
    let hash = tx.tx_hash();
    let expected = alloy_primitives::keccak256(tx.encoded_2718());
    assert_eq!(hash, expected.0);
    assert_ne!(hash.to_vec(), tx.encoded_2718());
}

#[test]
fn tx_size_counts_payload_input_and_entries() {
    let tx = build_sdm_tx(vec![
        SDMGasEntry { index: 1, gas_refund: 2500 },
        SDMGasEntry { index: 2, gas_refund: 10 },
    ]);
    let expected = core::mem::size_of::<SDMPayload>()
        + tx.input().len()
        + 2 * core::mem::size_of::<SDMGasEntry>();
    assert_eq!(tx.size(), expected);
}

#[test]
fn serde_helper_roundtrip_and_errors() {
    let tx = build_sdm_tx(vec![SDMGasEntry { index: 4, gas_refund: 7 }]);
    let helper = TxSdmSerdeHelper::from_tx(tx.clone());
    assert_eq!(helper.gas, Some(0));
    assert_eq!(helper.value, Some(0));
    assert!(helper.payload.is_none());
    assert_eq!(TxSdm::try_from_helper(helper).unwrap(), tx);

    let fields = |gas, value, input, payload| TxSdmSerdeHelper { gas, value, input, payload };
    assert_eq!(
        TxSdm::try_from_helper(fields(Some(1), None, None, None)).unwrap_err(),
        "sdm transaction gas must be 0"
    );
    assert_eq!(
        TxSdm::try_from_helper(fields(Some(0), Some(5), None, None)).unwrap_err(),
        "sdm transaction value must be 0"
    );
    assert_eq!(
        TxSdm::try_from_helper(fields(None, None, Some(vec![0x80]), None)).unwrap_err(),
        "invalid SDM transaction input"
    );
    assert_eq!(
        TxSdm::try_from_helper(fields(None, None, None, None)).unwrap_err(),
        "missing SDM transaction input"
    );
    let from_payload =
        TxSdm::try_from_helper(fields(None, Some(0), None, Some(tx.payload.clone()))).unwrap();
    assert_eq!(from_payload, tx);
}
