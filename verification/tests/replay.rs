use op_sdm::payload::{SDMGasEntry, SDMPayload};
use op_sdm::replay::{
    build_payload_map, into_refund_event, into_replay_payload, normalize_block, replay_block,
    strip_sdm_tx_for_replay, ReplayBlock, ReplayExecution, ReplayTx, SdmReplayError,
    WarmingRefundEvent, WarmingRefundKind,
};
use op_sdm::replay_types::{
    BlockHashOrNumber, BlockNumberOrTag, ReplaySdmBlockOptions, ReplaySdmBlockRequest, SdmMode,
    SdmReplayConfig, SdmReplayMismatchKind, SdmReplayRefundKind,
};

const DEPOSIT: u8 = 0x7E;
const SDM: u8 = 0x7D;
const USER: u8 = 0x02;

fn tx(tx_type: u8, hash_byte: u8, sdm_payload: Option<SDMPayload>) -> ReplayTx {
    ReplayTx { tx_type, is_deposit: tx_type == DEPOSIT, tx_hash: [hash_byte; 32], sdm_payload }
}

#[test]
fn strips_sdm_tx_and_preserves_original_indexes() {
    let deposit = "deposit";
    let user = deposit;
    let sdm = "sdm";
    let (replay_txs, original_indexes) =
        strip_sdm_tx_for_replay(vec![deposit, user, sdm], &vec![DEPOSIT, DEPOSIT, SDM]);
    assert_eq!(replay_txs.len(), 2);
    assert_eq!(original_indexes, vec![0, 1]);
}

#[test]
fn strip_keeps_order_around_sdm_tx() {
    let (kept, indexes) =
        strip_sdm_tx_for_replay(vec![10, 11, 12, 13], &vec![DEPOSIT, SDM, USER, USER]);
    assert_eq!(kept, vec![10, 12, 13]);
    assert_eq!(indexes, vec![0, 2, 3]);
}

#[test]
fn normalize_block_takes_last_sdm_tx() {
    let first = SDMPayload { version: 1, entries: vec![SDMGasEntry { index: 2, gas_refund: 1 }] };
    let second = SDMPayload { version: 1, entries: vec![] };
    let block = ReplayBlock {
        number: 5,
        hash: [0; 32],
        parent_hash: [0; 32],
        transactions: vec![
            tx(DEPOSIT, 0, None),
            tx(SDM, 1, Some(first)),
            tx(USER, 2, None),
            tx(SDM, 3, Some(second.clone())),
        ],
    };
    let normalized = normalize_block(&block);
    assert_eq!(normalized.original_indexes, vec![0, 2]);
    assert_eq!(normalized.sdm_tx_index, Some(3));
    assert_eq!(normalized.embedded_payload, Some(second));

    let plain = ReplayBlock { number: 5, hash: [0; 32], parent_hash: [0; 32], transactions: vec![tx(USER, 0, None)] };
    let normalized = normalize_block(&plain);
    assert_eq!(normalized.original_indexes, vec![0]);
    assert_eq!(normalized.sdm_tx_index, None);
    assert_eq!(normalized.embedded_payload, None);
}

#[test]
fn payload_map_reports_each_invalid_entry() {
    let txs = vec![tx(DEPOSIT, 0, None), tx(USER, 1, None), tx(SDM, 2, Some(SDMPayload { version: 1, entries: vec![] })), tx(USER, 3, None)];
    let payload = SDMPayload {
        version: 1,
        entries: vec![
            SDMGasEntry { index: 1, gas_refund: 100 },
            SDMGasEntry { index: 1, gas_refund: 50 },
            SDMGasEntry { index: 9, gas_refund: 5 },
            SDMGasEntry { index: 0, gas_refund: 7 },
            SDMGasEntry { index: 2, gas_refund: 8 },
            SDMGasEntry { index: 3, gas_refund: 30 },
        ],
    };
    let mut mismatches = Vec::new();
    let refunds = build_payload_map(42, &txs, &payload, &mut mismatches);
    assert_eq!(refunds.len(), 2);
    assert_eq!(refunds.get(&1), Some(&100));
    assert_eq!(refunds.get(&3), Some(&30));

    let kinds: Vec<_> = mismatches.iter().map(|m| m.category).collect();
    assert_eq!(
        kinds,
        vec![
            SdmReplayMismatchKind::DuplicatePayloadIndex,
            SdmReplayMismatchKind::PayloadIndexOutOfRange,
            SdmReplayMismatchKind::PayloadTargetsDeposit,
            SdmReplayMismatchKind::PayloadTargetsSdm,
        ]
    );
    assert_eq!(mismatches[0].message, "duplicate payload entry for tx index 1");
    assert_eq!(mismatches[0].expected, None);
    assert_eq!(mismatches[0].actual, Some(50));
    assert_eq!(mismatches[1].message, "payload entry targets out-of-range tx index 9");
    assert_eq!(mismatches[1].expected, Some(3));
    assert_eq!(mismatches[1].actual, Some(9));
    assert_eq!(mismatches[2].message, "payload entry targets deposit tx index 0");
    assert_eq!(mismatches[2].expected, Some(0));
    assert_eq!(mismatches[3].message, "payload entry targets SDM tx index 2");
    assert!(mismatches.iter().all(|m| m.block_num == 42));
    // Each entry is accounted for once, as a refund or as a mismatch row.
    assert_eq!(refunds.len() + mismatches.len(), payload.entries.len());
    // A counted refund is the one the payload itself gives for that index.
    assert_eq!(payload.gas_refund_for_idx(1), refunds.get(&1).copied());
    assert_eq!(payload.gas_refund_for_idx(3), refunds.get(&3).copied());
}

#[test]
fn refund_event_maps_replay_indexes() {
    let event = WarmingRefundEvent {
        kind: WarmingRefundKind::WarmSstore,
        amount: 2100,
        address: [1; 20],
        slot: Some([2; 32]),
        first_warmed_by_tx_index: 0,
    };
    let row = into_refund_event(event, 1, &[0, 2, 3]);
    assert_eq!(row.claiming_replay_tx_index, 1);
    assert_eq!(row.claiming_tx_index, 2);
    assert_eq!(row.first_warmed_by_replay_tx_index, 0);
    assert_eq!(row.first_warmed_by_tx_index, 0);
    assert_eq!(row.kind, SdmReplayRefundKind::WarmSstore);
    assert_eq!(row.amount, 2100);
    // An index past the replayed transactions stands for itself.
    let row = into_refund_event(WarmingRefundEvent { first_warmed_by_tx_index: 7, ..event }, 9, &[0, 2]);
    assert_eq!(row.claiming_tx_index, 9);
    assert_eq!(row.first_warmed_by_tx_index, 7);
}

#[test]
fn replay_payload_keeps_entries() {
    let replay = into_replay_payload(SDMPayload {
        version: 1,
        entries: vec![SDMGasEntry { index: 2, gas_refund: 9 }],
    });
    assert_eq!(replay.version, 1);
    assert_eq!(replay.entries.len(), 1);
    assert_eq!(replay.entries[0].index, 2);
    assert_eq!(replay.entries[0].gas_refund, 9);
}

fn sample_block() -> ReplayBlock {
    let embedded = SDMPayload {
        version: 1,
        entries: vec![SDMGasEntry { index: 2, gas_refund: 100 }, SDMGasEntry { index: 3, gas_refund: 40 }],
    };
    ReplayBlock {
        number: 77,
        hash: [7; 32],
        parent_hash: [6; 32],
        transactions: vec![
            tx(DEPOSIT, 0, None),
            tx(SDM, 1, Some(embedded)),
            tx(USER, 2, None),
            tx(USER, 3, None),
        ],
    }
}

fn sample_execution() -> ReplayExecution {
    let event = WarmingRefundEvent {
        kind: WarmingRefundKind::WarmSload,
        amount: 100,
        address: [1; 20],
        slot: Some([2; 32]),
        first_warmed_by_tx_index: 0,
    };
    ReplayExecution {
        entries: vec![
            SDMGasEntry { index: 0, gas_refund: 0 },
            SDMGasEntry { index: 1, gas_refund: 100 },
            SDMGasEntry { index: 2, gas_refund: 50 },
        ],
        warming_events_by_tx: vec![vec![], vec![event]],
        cumulative_gas_used: vec![21000, 60000, 90000],
    }
}

#[test]
fn replay_block_rows_mismatches_and_summary() {
    let block = sample_block();
    let execution = sample_execution();
    let result = replay_block(&block, SdmReplayConfig::default(), &execution).unwrap();

    assert_eq!(result.block_num, 77);
    assert_eq!(result.block_hash, [7; 32]);
    assert_eq!(result.parent_hash, [6; 32]);
    assert!(result.sdm_tx_present);
    assert_eq!(result.sdm_tx_index, Some(1));
    assert_eq!(result.embedded_payload.as_ref().unwrap().entries.len(), 2);

    let indexes: Vec<u64> = result.txs.iter().map(|t| t.tx_index).collect();
    assert_eq!(indexes, vec![0, 2, 3]);
    let gas: Vec<u64> = result.txs.iter().map(|t| t.gas_used).collect();
    assert_eq!(gas, vec![21000, 39000, 30000]);
    assert_eq!(result.txs[0].op_gas_refund_replay, 0);
    assert_eq!(result.txs[0].op_gas_refund_payload, None);
    assert!(result.txs[0].is_deposit_tx);
    assert!(!result.txs[0].mismatch);
    assert_eq!(result.txs[1].op_gas_refund_replay, 100);
    assert_eq!(result.txs[1].op_gas_refund_payload, Some(100));
    assert_eq!(result.txs[1].op_gas_refund_receipt, Some(100));
    assert_eq!(result.txs[1].effective_gas, 38900);
    assert_eq!(result.txs[1].refund_breakdown.len(), 1);
    assert_eq!(result.txs[1].refund_breakdown[0].claiming_tx_index, 2);
    assert_eq!(result.txs[1].refund_breakdown[0].first_warmed_by_tx_index, 0);
    assert!(!result.txs[1].mismatch);
    assert_eq!(result.txs[2].op_gas_refund_replay, 50);
    assert_eq!(result.txs[2].op_gas_refund_payload, Some(40));
    assert!(result.txs[2].mismatch);
    assert_eq!(result.txs[2].tx_hash, [3; 32]);
    assert_eq!(result.txs[2].replay_tx_index, 2);

    assert_eq!(result.mismatches.len(), 2);
    assert_eq!(result.mismatches[0].category, SdmReplayMismatchKind::PayloadRefundMismatch);
    assert_eq!(result.mismatches[0].message, "payload refund mismatch for tx index 3");
    assert_eq!(result.mismatches[0].expected, Some(40));
    assert_eq!(result.mismatches[0].actual, Some(50));
    assert_eq!(result.mismatches[1].category, SdmReplayMismatchKind::ReceiptRefundMismatch);
    assert_eq!(result.mismatches[1].message, "receipt refund mismatch for tx index 3");

    let summary = result.summary;
    assert_eq!(summary.tx_count_total, 3);
    assert_eq!(summary.tx_count_user, 2);
    assert!(summary.sdm_tx_present);
    assert_eq!(summary.sdm_payload_entry_count, 2);
    assert_eq!(summary.block_gas_used, 90000);
    assert_eq!(summary.replay_refund_total, 150);
    assert_eq!(summary.payload_refund_total, 140);
    assert_eq!(summary.node_receipt_refund_total, 140);
    assert_eq!(summary.block_effective_gas, 89850);
    assert_eq!(summary.mismatch_count, 2);
    assert_eq!(summary.replay_mode, SdmMode::CounterfactualEnabled);

    let synthesized = SDMPayload { version: 1, entries: execution.entries.clone() };
    assert_eq!(result.synthesized_payload_bytes, synthesized.to_rlp_bytes());
    assert_eq!(SDMPayload::from_rlp_bytes(&result.synthesized_payload_bytes), Some(synthesized));
    assert_eq!(result.synthesized_payload.entries.len(), 3);
}

#[test]
fn replay_refunds_follow_replay_positions() {
    let block = ReplayBlock {
        number: 5,
        hash: [5; 32],
        parent_hash: [4; 32],
        transactions: vec![
            tx(DEPOSIT, 0, None),
            tx(SDM, 1, Some(SDMPayload { version: 1, entries: vec![] })),
            tx(USER, 2, None),
        ],
    };
    let execution = ReplayExecution {
        entries: vec![SDMGasEntry { index: 1, gas_refund: 100 }],
        warming_events_by_tx: vec![],
        cumulative_gas_used: vec![21000, 50000],
    };
    let result = replay_block(&block, SdmReplayConfig::default(), &execution).unwrap();
    assert_eq!(result.txs[1].tx_index, 2);
    assert_eq!(result.txs[1].replay_tx_index, 1);
    assert_eq!(result.txs[1].op_gas_refund_replay, 100);
    assert_eq!(result.txs[1].effective_gas, 28900);
    assert_eq!(result.txs[0].op_gas_refund_replay, 0);
}

#[test]
fn missing_payload_entry_is_compared_as_zero() {
    let block = ReplayBlock {
        number: 8,
        hash: [8; 32],
        parent_hash: [7; 32],
        transactions: vec![tx(SDM, 0, Some(SDMPayload { version: 1, entries: vec![] })), tx(USER, 1, None)],
    };
    let execution = ReplayExecution {
        entries: vec![SDMGasEntry { index: 0, gas_refund: 100 }],
        warming_events_by_tx: vec![],
        cumulative_gas_used: vec![30000],
    };
    let result = replay_block(&block, SdmReplayConfig::default(), &execution).unwrap();
    assert_eq!(result.txs[0].tx_index, 1);
    assert_eq!(result.txs[0].op_gas_refund_payload, None);
    assert!(result.txs[0].mismatch);
    assert_eq!(result.mismatches.len(), 2);
    assert_eq!(result.mismatches[0].category, SdmReplayMismatchKind::PayloadRefundMismatch);
    assert_eq!(result.mismatches[0].tx_index, Some(1));
    assert_eq!(result.mismatches[0].expected, None);
    assert_eq!(result.mismatches[0].actual, Some(100));
    assert_eq!(result.mismatches[1].category, SdmReplayMismatchKind::ReceiptRefundMismatch);
    assert_eq!(result.mismatches[1].expected, None);
}

#[test]
fn absent_refunds_are_not_compared() {
    let block = ReplayBlock {
        number: 6,
        hash: [6; 32],
        parent_hash: [5; 32],
        transactions: vec![tx(USER, 0, None)],
    };
    let execution = ReplayExecution {
        entries: vec![SDMGasEntry { index: 0, gas_refund: 100 }],
        warming_events_by_tx: vec![],
        cumulative_gas_used: vec![30000],
    };
    let result = replay_block(&block, SdmReplayConfig::default(), &execution).unwrap();
    assert!(!result.sdm_tx_present);
    assert_eq!(result.embedded_payload, None);
    assert_eq!(result.txs[0].op_gas_refund_replay, 100);
    assert_eq!(result.txs[0].op_gas_refund_payload, None);
    assert_eq!(result.txs[0].op_gas_refund_receipt, None);
    assert!(!result.txs[0].mismatch);
    assert!(result.mismatches.is_empty());
    assert_eq!(result.summary.mismatch_count, 0);
    assert_eq!(result.summary.sdm_payload_entry_count, 1);
    assert_eq!(result.summary.payload_refund_total, 0);
}

#[test]
fn replay_block_without_comparisons_reports_no_mismatch() {
    let config =
        SdmReplayConfig { mode: SdmMode::CounterfactualEnabled, compare_payload: false, compare_receipts: false };
    let result = replay_block(&sample_block(), config, &sample_execution()).unwrap();
    assert!(result.mismatches.is_empty());
    assert!(result.txs.iter().all(|t| !t.mismatch));
    assert_eq!(result.summary.mismatch_count, 0);
}

#[test]
fn replay_block_refuses_other_modes() {
    for mode in [SdmMode::Disabled, SdmMode::Verifier] {
        let config = SdmReplayConfig { mode, compare_payload: true, compare_receipts: true };
        assert_eq!(
            replay_block(&sample_block(), config, &sample_execution()).unwrap_err(),
            SdmReplayError::UnsupportedMode(mode)
        );
    }
}

#[test]
fn replay_config_from_options() {
    let config = SdmReplayConfig::from_options(None);
    assert_eq!(config, SdmReplayConfig::default());
    assert!(config.compare_payload && config.compare_receipts);
    let config = SdmReplayConfig::from_options(Some(ReplaySdmBlockOptions {
        compare_payload: false,
        compare_receipts: true,
    }));
    assert_eq!(config.mode, SdmMode::CounterfactualEnabled);
    assert!(!config.compare_payload);
    assert!(config.compare_receipts);
    assert_eq!(ReplaySdmBlockOptions::default(), ReplaySdmBlockOptions { compare_payload: true, compare_receipts: true });
    assert_eq!(SdmMode::default(), SdmMode::CounterfactualEnabled);
}

#[test]
fn missing_block_ids() {
    assert_eq!(ReplaySdmBlockRequest::Hash([9; 32]).missing_block_id(), BlockHashOrNumber::Hash([9; 32]));
    assert_eq!(
        ReplaySdmBlockRequest::Number(BlockNumberOrTag::Number(12)).missing_block_id(),
        BlockHashOrNumber::Number(0)
    );
    assert_eq!(
        ReplaySdmBlockRequest::Number(BlockNumberOrTag::Latest).missing_block_id(),
        BlockHashOrNumber::Number(0)
    );
}

#[test]
fn messages_name_the_index_in_decimal() {
    let txs = vec![tx(USER, 0, None)];
    let payload = SDMPayload {
        version: 1,
        entries: vec![
            SDMGasEntry { index: u64::MAX, gas_refund: 1 },
            SDMGasEntry { index: 1234567890, gas_refund: 1 },
            SDMGasEntry { index: 0, gas_refund: 1 },
            SDMGasEntry { index: 0, gas_refund: 2 },
        ],
    };
    let mut mismatches = Vec::new();
    let refunds = build_payload_map(1, &txs, &payload, &mut mismatches);
    assert_eq!(refunds.get(&0), Some(&1));
    assert_eq!(mismatches[0].message, "payload entry targets out-of-range tx index 18446744073709551615");
    assert_eq!(mismatches[0].expected, Some(0));
    assert_eq!(mismatches[1].message, "payload entry targets out-of-range tx index 1234567890");
    assert_eq!(mismatches[2].message, "duplicate payload entry for tx index 0");
}
