//! Bookkeeping of a counterfactual SDM replay.
//!
//! A replay strips the synthetic SDM transaction from a historical block,
//! re-executes the rest with SDM enabled, and compares the refunds that
//! execution computes with those of the payload the block carried. Execution
//! itself happens outside this crate; here are the steps around it: which
//! transactions are replayed and under which original index, which payload
//! entries are valid, and the per-transaction rows, mismatches and summary of
//! the result.

use std::collections::{BTreeMap, BTreeSet};
use vstd::prelude::*;
use crate::payload::{SDMGasEntry, SDMPayload, SDMPayloadView};
use crate::payload::spec_payload_encoding;
use crate::replay_types::{
    mismatch_views, tx_views, SdmMode, SdmReplayBlock, SdmReplayBlockView, SdmReplayConfig,
    SdmReplayMismatch, SdmReplayMismatchKind, SdmReplayMismatchView, SdmReplayPayload,
    SdmReplayPayloadEntry, SdmReplayPayloadView, SdmReplayRefundEvent, SdmReplayRefundKind,
    SdmReplaySummary, SdmReplayTx, SdmReplayTxView,
};
use crate::text::{index_message, spec_index_message};
use crate::transaction::SDM_TX_TYPE_ID;

verus! {

broadcast use vstd::laws_cmp::group_laws_cmp;

/// What a replay reads of one transaction of the source block.
#[derive(Clone, Debug)]
pub struct ReplayTx {
    /// EIP-2718 type byte.
    pub tx_type: u8,
    /// Whether it is a deposit transaction.
    pub is_deposit: bool,
    /// Transaction hash.
    pub tx_hash: [u8; 32],
    /// The payload, for an SDM transaction.
    pub sdm_payload: Option<SDMPayload>,
}

/// What a replay reads of the source block.
#[derive(Clone, Debug)]
pub struct ReplayBlock {
    /// Block number.
    pub number: u64,
    /// Block hash.
    pub hash: [u8; 32],
    /// Parent hash.
    pub parent_hash: [u8; 32],
    /// Transactions, in block order.
    pub transactions: Vec<ReplayTx>,
}

impl ReplayTx {
    /// A transaction as a block holds it: it carries a payload exactly when it
    /// is of the SDM type.
    pub open spec fn well_formed(&self) -> bool {
        (self.tx_type == SDM_TX_TYPE_ID) == (self.sdm_payload is Some)
    }
}

impl ReplayBlock {
    /// Every transaction of the block is well formed.
    pub open spec fn well_formed(&self) -> bool {
        forall|i: int| 0 <= i < self.transactions@.len() ==> #[trigger] self.transactions@[i].well_formed()
    }
}

/// A block prepared for replay: which transactions are replayed, and what the
/// stripped SDM transaction carried.
#[derive(Clone, Debug)]
pub struct NormalizedBlock {
    /// Original index of each replayed transaction, in replay order.
    pub original_indexes: Vec<u64>,
    /// Payload of the SDM transaction, if any.
    pub embedded_payload: Option<SDMPayload>,
    /// Original index of the SDM transaction, if any.
    pub sdm_tx_index: Option<u64>,
}

/// Kind of warming reported by execution.
#[derive(Clone, Copy, Debug, PartialEq, Eq, Structural)]
pub enum WarmingRefundKind {
    /// An account was already warm.
    WarmAccount,
    /// A storage slot read was already warm.
    WarmSload,
    /// A storage slot write was already warm.
    WarmSstore,
}

/// A refund reported by execution for one replayed transaction.
#[derive(Clone, Copy, Debug, PartialEq, Eq)]
pub struct WarmingRefundEvent {
    /// Kind of warming.
    pub kind: WarmingRefundKind,
    /// Refunded gas.
    pub amount: u64,
    /// Warmed account.
    pub address: [u8; 20],
    /// Warmed storage slot, if any.
    pub slot: Option<[u8; 32]>,
    /// Replay-local index of the transaction that first warmed the item.
    pub first_warmed_by_tx_index: u64,
}

/// The outcome of executing the replayed transactions.
#[derive(Clone, Debug)]
pub struct ReplayExecution {
    /// Refund entries that execution collected. Execution numbers transactions
    /// by their position in the replayed block (the SDM transaction stripped),
    /// so an entry's `index` is a replay index.
    pub entries: Vec<SDMGasEntry>,
    /// Refund events of each replayed transaction, in replay order.
    pub warming_events_by_tx: Vec<Vec<WarmingRefundEvent>>,
    /// Cumulative gas used after each replayed transaction, from the receipts.
    pub cumulative_gas_used: Vec<u64>,
}

/// Original indexes of the transactions whose type is not the SDM type, in order.
pub open spec fn spec_kept_indexes(tx_types: Seq<u8>) -> Seq<u64>
    decreases tx_types.len(),
{
    if tx_types.len() == 0 {
        Seq::empty()
    } else {
        let prev = spec_kept_indexes(tx_types.drop_last());
        if tx_types.last() == SDM_TX_TYPE_ID {
            prev
        } else {
            prev.push((tx_types.len() - 1) as u64)
        }
    }
}

/// The type bytes of `txs`.
pub open spec fn spec_tx_types(txs: Seq<ReplayTx>) -> Seq<u8> {
    txs.map_values(|t: ReplayTx| t.tx_type)
}

/// Position of the last SDM transaction of `txs`, if any.
pub open spec fn spec_last_sdm_position(txs: Seq<ReplayTx>) -> Option<int>
    decreases txs.len(),
{
    if txs.len() == 0 {
        None
    } else if txs.last().tx_type == SDM_TX_TYPE_ID {
        Some(txs.len() - 1)
    } else {
        spec_last_sdm_position(txs.drop_last())
    }
}

/// The last SDM position lies within the transactions, at an SDM transaction.
pub proof fn lemma_last_sdm_position(txs: Seq<ReplayTx>)
    ensures
        spec_last_sdm_position(txs) matches Some(i) ==> 0 <= i < txs.len() && txs[i].tx_type
            == SDM_TX_TYPE_ID,
    decreases txs.len(),
{
    if txs.len() > 0 {
        lemma_last_sdm_position(txs.drop_last());
    }
}

/// The payload that the last SDM transaction of `txs` carries, if any.
pub open spec fn spec_embedded_payload(txs: Seq<ReplayTx>) -> Option<SDMPayloadView> {
    match spec_last_sdm_position(txs) {
        Some(i) => match txs[i].sdm_payload {
            Some(p) => Some(p@),
            None => None,
        },
        None => None,
    }
}

/// Original index of the transaction at replay index `replay_index`; an index
/// past the replayed transactions stands for itself.
pub open spec fn spec_original_index(original_indexes: Seq<u64>, replay_index: u64) -> u64 {
    let i = replay_index as usize;
    if (i as int) < original_indexes.len() {
        original_indexes[i as int]
    } else {
        replay_index
    }
}

/// The refund kind that a warming kind is reported as.
pub open spec fn spec_refund_kind(kind: WarmingRefundKind) -> SdmReplayRefundKind {
    match kind {
        WarmingRefundKind::WarmAccount => SdmReplayRefundKind::WarmAccount,
        WarmingRefundKind::WarmSload => SdmReplayRefundKind::WarmSload,
        WarmingRefundKind::WarmSstore => SdmReplayRefundKind::WarmSstore,
    }
}

/// The refund row of `event`, claimed by the transaction at replay index
/// `claiming_replay_tx_index`, with replay indexes mapped to original ones.
pub open spec fn spec_refund_event(
    event: WarmingRefundEvent,
    claiming_replay_tx_index: u64,
    original_indexes: Seq<u64>,
) -> SdmReplayRefundEvent {
    SdmReplayRefundEvent {
        claiming_replay_tx_index,
        claiming_tx_index: spec_original_index(original_indexes, claiming_replay_tx_index),
        kind: spec_refund_kind(event.kind),
        amount: event.amount,
        address: event.address,
        slot: event.slot,
        first_warmed_by_replay_tx_index: event.first_warmed_by_tx_index,
        first_warmed_by_tx_index: spec_original_index(
            original_indexes,
            event.first_warmed_by_tx_index,
        ),
    }
}

/// The serializable form of a payload.
pub open spec fn spec_replay_payload(p: SDMPayloadView) -> SdmReplayPayloadView {
    SdmReplayPayloadView {
        version: p.version,
        entries: p.entries.map_values(
            |e: SDMGasEntry| SdmReplayPayloadEntry { index: e.index, gas_refund: e.gas_refund },
        ),
    }
}

/// Strip the synthetic SDM tx from a block's transactions before replay while
/// preserving original indexes: returns the transactions whose type (in
/// `tx_types`) is not the SDM type, and the original index of each.
pub fn strip_sdm_tx_for_replay<T>(transactions: Vec<T>, tx_types: &Vec<u8>) -> (res: (
    Vec<T>,
    Vec<u64>,
))
    requires
        transactions@.len() == tx_types@.len(),
    ensures
        res.1@ == spec_kept_indexes(tx_types@),
        res.0@.len() == res.1@.len(),
        forall|k: int| 0 <= k < res.0@.len() ==> res.0@[k] == transactions@[res.1@[k] as int],
{
    let ghost original = transactions@;
    let n = transactions.len();
    // Take the transactions off the end, which reverses them.
    let mut rest = transactions;
    let mut reversed: Vec<T> = Vec::new();
    while rest.len() > 0
        invariant
            rest@ == original.take(rest@.len() as int),
            reversed@.len() + rest@.len() == original.len(),
            forall|i: int| 0 <= i < reversed@.len() ==> reversed@[i] == original[original.len() - 1 - i],
        decreases rest@.len(),
    {
        let tx = rest.pop().unwrap();
        reversed.push(tx);
        assert(rest@ =~= original.take(rest@.len() as int));
    }
    // Take them off the end again, now in block order.
    let mut kept: Vec<T> = Vec::new();
    let mut original_indexes: Vec<u64> = Vec::new();
    let mut idx: usize = 0;
    while idx < n
        invariant
            n == original.len(),
            n == tx_types@.len(),
            idx <= n,
            reversed@.len() == n - idx,
            forall|i: int| 0 <= i < reversed@.len() ==> reversed@[i] == original[n - 1 - i],
            original_indexes@ == spec_kept_indexes(tx_types@.take(idx as int)),
            kept@.len() == original_indexes@.len(),
            forall|k: int| 0 <= k < kept@.len() ==> kept@[k] == original[original_indexes@[k] as int],
        decreases n - idx,
    {
        let tx = reversed.pop().unwrap();
        assert(tx == original[idx as int]);
        assert(tx_types@.take(idx + 1).drop_last() =~= tx_types@.take(idx as int));
        if tx_types[idx] != SDM_TX_TYPE_ID {
            original_indexes.push(idx as u64);
            kept.push(tx);
        }
        idx = idx + 1;
    }
    assert(tx_types@.take(n as int) =~= tx_types@);
    (kept, original_indexes)
}

/// Prepare a block for replay: the original indexes of the transactions that
/// are not SDM transactions, and the index and payload of the last SDM one.
pub fn normalize_block(block: &ReplayBlock) -> (normalized: NormalizedBlock)
    requires
        block.well_formed(),
    ensures
        normalized.original_indexes@ == spec_kept_indexes(spec_tx_types(block.transactions@)),
        normalized.sdm_tx_index == match spec_last_sdm_position(block.transactions@) {
            Some(i) => Some(i as u64),
            None => None::<u64>,
        },
        match normalized.embedded_payload {
            Some(p) => spec_embedded_payload(block.transactions@) == Some(p@),
            None => spec_embedded_payload(block.transactions@) is None,
        },
{
    let ghost txs = block.transactions@;
    let n = block.transactions.len();
    let mut original_indexes: Vec<u64> = Vec::new();
    let mut embedded_payload: Option<SDMPayload> = None;
    let mut sdm_tx_index: Option<u64> = None;
    let mut idx: usize = 0;
    while idx < n
        invariant
            n == txs.len(),
            txs == block.transactions@,
            idx <= n,
            original_indexes@ == spec_kept_indexes(spec_tx_types(txs.take(idx as int))),
            sdm_tx_index == match spec_last_sdm_position(txs.take(idx as int)) {
                Some(i) => Some(i as u64),
                None => None::<u64>,
            },
            match embedded_payload {
                Some(p) => spec_embedded_payload(txs.take(idx as int)) == Some(p@),
                None => spec_embedded_payload(txs.take(idx as int)) is None,
            },
        decreases n - idx,
    {
        let tx = &block.transactions[idx];
        proof {
            let prefix = txs.take(idx + 1);
            assert(prefix.drop_last() =~= txs.take(idx as int));
            assert(spec_tx_types(prefix).drop_last() =~= spec_tx_types(txs.take(idx as int)));
            lemma_last_sdm_position(txs.take(idx as int));
            match spec_last_sdm_position(txs.take(idx as int)) {
                Some(i) => {
                    assert(txs.take(idx as int)[i] == prefix[i]);
                },
                None => {},
            }
        }
        if tx.tx_type == SDM_TX_TYPE_ID {
            sdm_tx_index = Some(idx as u64);
            embedded_payload = match &tx.sdm_payload {
                Some(p) => Some(p.copied()),
                None => None,
            };
        } else {
            original_indexes.push(idx as u64);
        }
        idx = idx + 1;
    }
    assert(txs.take(n as int) =~= txs);
    NormalizedBlock { original_indexes, embedded_payload, sdm_tx_index }
}

/// The refund kind that a warming kind is reported as.
pub fn into_refund_kind(kind: WarmingRefundKind) -> (res: SdmReplayRefundKind)
    ensures
        res == spec_refund_kind(kind),
{
    match kind {
        WarmingRefundKind::WarmAccount => SdmReplayRefundKind::WarmAccount,
        WarmingRefundKind::WarmSload => SdmReplayRefundKind::WarmSload,
        WarmingRefundKind::WarmSstore => SdmReplayRefundKind::WarmSstore,
    }
}

/// Original index of the transaction at replay index `replay_index`.
fn original_index(original_indexes: &[u64], replay_index: u64) -> (res: u64)
    ensures
        res == spec_original_index(original_indexes@, replay_index),
{
    let i = replay_index as usize;
    if i < original_indexes.len() {
        original_indexes[i]
    } else {
        replay_index
    }
}

/// The refund row of `event`, claimed by the transaction at replay index
/// `claiming_replay_tx_index`, with replay indexes mapped to original ones.
pub fn into_refund_event(
    event: WarmingRefundEvent,
    claiming_replay_tx_index: u64,
    original_indexes: &[u64],
) -> (res: SdmReplayRefundEvent)
    ensures
        res == spec_refund_event(event, claiming_replay_tx_index, original_indexes@),
{
    let first_warmed_by_replay_tx_index = event.first_warmed_by_tx_index;
    let claiming_tx_index = original_index(original_indexes, claiming_replay_tx_index);
    let first_warmed_by_tx_index = original_index(original_indexes, first_warmed_by_replay_tx_index);
    SdmReplayRefundEvent {
        claiming_replay_tx_index,
        claiming_tx_index,
        kind: into_refund_kind(event.kind),
        amount: event.amount,
        address: event.address,
        slot: event.slot,
        first_warmed_by_replay_tx_index,
        first_warmed_by_tx_index,
    }
}

/// The serializable form of a payload.
pub fn into_replay_payload(payload: SDMPayload) -> (res: SdmReplayPayload)
    ensures
        res@ == spec_replay_payload(payload@),
{
    let mut entries: Vec<SdmReplayPayloadEntry> = Vec::new();
    let mut i: usize = 0;
    while i < payload.entries.len()
        invariant
            i <= payload.entries@.len(),
            entries@ =~= spec_replay_payload(payload@).entries.take(i as int),
        decreases payload.entries@.len() - i,
    {
        let e = payload.entries[i];
        entries.push(SdmReplayPayloadEntry { index: e.index, gas_refund: e.gas_refund });
        i = i + 1;
        assert(entries@ =~= spec_replay_payload(payload@).entries.take(i as int));
    }
    assert(entries@ =~= spec_replay_payload(payload@).entries);
    SdmReplayPayload { version: payload.version, entries }
}

/// A mismatch row about transaction `tx_index` whose message is `prefix` followed by the index.
pub open spec fn spec_mismatch(
    category: SdmReplayMismatchKind,
    block_num: u64,
    tx_index: u64,
    expected: Option<u64>,
    actual: Option<u64>,
    prefix: &str,
) -> SdmReplayMismatchView {
    SdmReplayMismatchView {
        category,
        block_num,
        tx_index: Some(tx_index),
        expected,
        actual,
        message: spec_index_message(prefix, tx_index),
    }
}

/// State of checking the entries of an embedded payload against the block:
/// the refunds of the valid entries, the indexes met so far, and the mismatches.
pub struct PayloadScan {
    pub refunds: Map<u64, u64>,
    pub seen: Set<u64>,
    pub mismatches: Seq<SdmReplayMismatchView>,
}

/// Checking one more entry. An index met before is a duplicate; otherwise it
/// must name a transaction of the block that is neither a deposit nor the SDM
/// transaction, and only then does its refund count.
pub open spec fn spec_payload_scan_step(
    block_number: u64,
    txs: Seq<ReplayTx>,
    s: PayloadScan,
    e: SDMGasEntry,
) -> PayloadScan {
    let tx_count = txs.len() as u64;
    if s.seen.contains(e.index) {
        PayloadScan {
            refunds: s.refunds,
            seen: s.seen,
            mismatches: s.mismatches.push(
                spec_mismatch(
                    SdmReplayMismatchKind::DuplicatePayloadIndex,
                    block_number,
                    e.index,
                    None,
                    Some(e.gas_refund),
                    "duplicate payload entry for tx index ",
                ),
            ),
        }
    } else {
        let seen = s.seen.insert(e.index);
        if e.index >= tx_count {
            PayloadScan {
                refunds: s.refunds,
                seen,
                mismatches: s.mismatches.push(
                    spec_mismatch(
                        SdmReplayMismatchKind::PayloadIndexOutOfRange,
                        block_number,
                        e.index,
                        Some(if tx_count >= 1 { (tx_count - 1) as u64 } else { 0 }),
                        Some(e.index),
                        "payload entry targets out-of-range tx index ",
                    ),
                ),
            }
        } else if txs[e.index as int].is_deposit {
            PayloadScan {
                refunds: s.refunds,
                seen,
                mismatches: s.mismatches.push(
                    spec_mismatch(
                        SdmReplayMismatchKind::PayloadTargetsDeposit,
                        block_number,
                        e.index,
                        Some(0),
                        Some(e.gas_refund),
                        "payload entry targets deposit tx index ",
                    ),
                ),
            }
        } else if txs[e.index as int].tx_type == SDM_TX_TYPE_ID {
            PayloadScan {
                refunds: s.refunds,
                seen,
                mismatches: s.mismatches.push(
                    spec_mismatch(
                        SdmReplayMismatchKind::PayloadTargetsSdm,
                        block_number,
                        e.index,
                        Some(0),
                        Some(e.gas_refund),
                        "payload entry targets SDM tx index ",
                    ),
                ),
            }
        } else {
            PayloadScan { refunds: s.refunds.insert(e.index, e.gas_refund), seen, mismatches: s.mismatches }
        }
    }
}

/// Checking the entries of an embedded payload, in order.
pub open spec fn spec_payload_scan(
    block_number: u64,
    txs: Seq<ReplayTx>,
    entries: Seq<SDMGasEntry>,
) -> PayloadScan
    decreases entries.len(),
{
    if entries.len() == 0 {
        PayloadScan { refunds: Map::empty(), seen: Set::empty(), mismatches: Seq::empty() }
    } else {
        spec_payload_scan_step(
            block_number,
            txs,
            spec_payload_scan(block_number, txs, entries.drop_last()),
            entries.last(),
        )
    }
}

/// Check the entries of an embedded payload against the block's transactions:
/// returns the refund of each valid entry by transaction index, and appends a
/// mismatch row for each entry that is a duplicate, out of range, or aimed at
/// a deposit or at the SDM transaction.
pub fn build_payload_map(
    block_number: u64,
    transactions: &Vec<ReplayTx>,
    payload: &SDMPayload,
    mismatches: &mut Vec<SdmReplayMismatch>,
) -> (refunds: BTreeMap<u64, u64>)
    ensures
        refunds@ == spec_payload_scan(block_number, transactions@, payload.entries@).refunds,
        mismatch_views(final(mismatches)@) == mismatch_views(old(mismatches)@) + spec_payload_scan(
            block_number,
            transactions@,
            payload.entries@,
        ).mismatches,
{
    let mut refunds: BTreeMap<u64, u64> = BTreeMap::new();
    let mut seen: BTreeSet<u64> = BTreeSet::new();
    let tx_count = transactions.len() as u64;
    let ghost start = mismatch_views(mismatches@);
    let mut i: usize = 0;
    while i < payload.entries.len()
        invariant
            i <= payload.entries@.len(),
            tx_count == transactions@.len(),
            transactions@.len() <= usize::MAX,
            refunds@ == spec_payload_scan(block_number, transactions@, payload.entries@.take(i as int)).refunds,
            seen@ == spec_payload_scan(block_number, transactions@, payload.entries@.take(i as int)).seen,
            mismatch_views(mismatches@) == start + spec_payload_scan(
                block_number,
                transactions@,
                payload.entries@.take(i as int),
            ).mismatches,
        decreases payload.entries@.len() - i,
    {
        let entry = payload.entries[i];
        let ghost before = mismatches@;
        let ghost prev = spec_payload_scan(block_number, transactions@, payload.entries@.take(i as int));
        proof {
            assert(payload.entries@.take(i + 1).drop_last() =~= payload.entries@.take(i as int));
            assert(spec_payload_scan(block_number, transactions@, payload.entries@.take(i + 1))
                == spec_payload_scan_step(block_number, transactions@, prev, entry));
        }
        if !seen.insert(entry.index) {
            mismatches.push(
                SdmReplayMismatch {
                    category: SdmReplayMismatchKind::DuplicatePayloadIndex,
                    block_num: block_number,
                    tx_index: Some(entry.index),
                    expected: None,
                    actual: Some(entry.gas_refund),
                    message: index_message("duplicate payload entry for tx index ", entry.index),
                },
            );
        } else if entry.index >= tx_count {
            mismatches.push(
                SdmReplayMismatch {
                    category: SdmReplayMismatchKind::PayloadIndexOutOfRange,
                    block_num: block_number,
                    tx_index: Some(entry.index),
                    expected: Some(tx_count.saturating_sub(1)),
                    actual: Some(entry.index),
                    message: index_message("payload entry targets out-of-range tx index ", entry.index),
                },
            );
        } else if {
            assert((entry.index as usize) as int == entry.index as int);
            transactions[entry.index as usize].is_deposit
        } {
            mismatches.push(
                SdmReplayMismatch {
                    category: SdmReplayMismatchKind::PayloadTargetsDeposit,
                    block_num: block_number,
                    tx_index: Some(entry.index),
                    expected: Some(0),
                    actual: Some(entry.gas_refund),
                    message: index_message("payload entry targets deposit tx index ", entry.index),
                },
            );
        } else if transactions[entry.index as usize].tx_type == SDM_TX_TYPE_ID {
            mismatches.push(
                SdmReplayMismatch {
                    category: SdmReplayMismatchKind::PayloadTargetsSdm,
                    block_num: block_number,
                    tx_index: Some(entry.index),
                    expected: Some(0),
                    actual: Some(entry.gas_refund),
                    message: index_message("payload entry targets SDM tx index ", entry.index),
                },
            );
        } else {
            refunds.insert(entry.index, entry.gas_refund);
        }
        proof {
            assert(mismatch_views(before.push(mismatches@.last())) =~= mismatch_views(before).push(
                mismatches@.last()@,
            ));
        }
        i = i + 1;
    }
    proof {
        assert(payload.entries@.take(i as int) =~= payload.entries@);
    }
    refunds
}

/// Replay error.
#[derive(Clone, Debug, PartialEq, Eq)]
pub enum SdmReplayError {
    /// Unsupported replay configuration.
    UnsupportedMode(SdmMode),
    /// Execution of the replayed transactions failed (raised where they are executed).
    Execution(String),
}

/// The kept indexes are in range and name transactions that are not of the SDM type.
pub proof fn lemma_kept_indexes(tx_types: Seq<u8>)
    requires
        tx_types.len() <= u64::MAX,
    ensures
        spec_kept_indexes(tx_types).len() <= tx_types.len(),
        forall|k: int|
            0 <= k < spec_kept_indexes(tx_types).len() ==> spec_kept_indexes(tx_types)[k]
                < tx_types.len() && tx_types[spec_kept_indexes(tx_types)[k] as int]
                != SDM_TX_TYPE_ID,
    decreases tx_types.len(),
{
    if tx_types.len() > 0 {
        let prev = tx_types.drop_last();
        lemma_kept_indexes(prev);
        assert forall|k: int| 0 <= k < spec_kept_indexes(tx_types).len() implies spec_kept_indexes(
            tx_types,
        )[k] < tx_types.len() && tx_types[spec_kept_indexes(tx_types)[k] as int]
            != SDM_TX_TYPE_ID by {
            if k < spec_kept_indexes(prev).len() {
                assert(tx_types[spec_kept_indexes(prev)[k] as int] == prev[spec_kept_indexes(
                    prev,
                )[k] as int]);
            }
        }
    }
}

/// Refunds that execution collected, by transaction index; a later entry for
/// an index replaces an earlier one.
pub open spec fn spec_replay_refunds(entries: Seq<SDMGasEntry>) -> Map<u64, u64>
    decreases entries.len(),
{
    if entries.len() == 0 {
        Map::empty()
    } else {
        spec_replay_refunds(entries.drop_last()).insert(entries.last().index, entries.last().gas_refund)
    }
}

/// Refunds of the valid entries of the block's embedded payload, by transaction index.
pub open spec fn spec_payload_refunds(block: ReplayBlock) -> Map<u64, u64> {
    match spec_embedded_payload(block.transactions@) {
        Some(p) => spec_payload_scan(block.number, block.transactions@, p.entries).refunds,
        None => Map::empty(),
    }
}

/// Mismatch rows about the entries of the block's embedded payload.
pub open spec fn spec_payload_mismatches(block: ReplayBlock) -> Seq<SdmReplayMismatchView> {
    match spec_embedded_payload(block.transactions@) {
        Some(p) => spec_payload_scan(block.number, block.transactions@, p.entries).mismatches,
        None => Seq::empty(),
    }
}

/// The value at `k`, if `m` has one.
pub open spec fn spec_lookup(m: Map<u64, u64>, k: u64) -> Option<u64> {
    if m.contains_key(k) {
        Some(m[k])
    } else {
        None
    }
}

/// The value, or zero.
pub open spec fn spec_or_zero(v: Option<u64>) -> u64 {
    match v {
        Some(x) => x,
        None => 0,
    }
}

/// `a - b`, or zero when `b > a`.
pub open spec fn spec_saturating_sub(a: u64, b: u64) -> u64 {
    if a >= b {
        (a - b) as u64
    } else {
        0
    }
}

/// Original indexes of the replayed transactions, in replay order.
pub open spec fn spec_replay_indexes(block: ReplayBlock) -> Seq<u64> {
    spec_kept_indexes(spec_tx_types(block.transactions@))
}

/// Gas used by replayed transaction `j`: its cumulative gas less that of the one before.
pub open spec fn spec_gas_used(cumulative: Seq<u64>, j: int) -> u64 {
    spec_saturating_sub(cumulative[j], if j == 0 { 0 } else { cumulative[j - 1] })
}

/// Refund rows of replayed transaction `j`, from the events execution reported for it.
pub open spec fn spec_refund_breakdown(
    events_by_tx: Seq<Vec<WarmingRefundEvent>>,
    j: int,
    original_indexes: Seq<u64>,
) -> Seq<SdmReplayRefundEvent> {
    if j < events_by_tx.len() {
        events_by_tx[j]@.map_values(
            |e: WarmingRefundEvent| spec_refund_event(e, j as u64, original_indexes),
        )
    } else {
        Seq::empty()
    }
}

/// Whether the payload refund of a row is compared and differs from the replay
/// refund. Refunds are compared only when the block carries a payload; a
/// transaction the payload has no entry for then counts as refunded zero.
pub open spec fn spec_payload_mismatched(
    config: SdmReplayConfig,
    payload_present: bool,
    payload_refund: Option<u64>,
    replay_refund: u64,
) -> bool {
    &&& config.compare_payload
    &&& payload_present
    &&& spec_or_zero(payload_refund) != replay_refund
}

/// Whether the receipt refund of a row is compared and differs from the replay
/// refund, under the same rule as the payload refund.
pub open spec fn spec_receipt_mismatched(
    config: SdmReplayConfig,
    payload_present: bool,
    receipt_refund: Option<u64>,
    replay_refund: u64,
) -> bool {
    &&& config.compare_receipts
    &&& payload_present
    &&& spec_or_zero(receipt_refund) != replay_refund
}

/// Whether the block carries an embedded payload.
pub open spec fn spec_payload_present(block: ReplayBlock) -> bool {
    spec_embedded_payload(block.transactions@) is Some
}

/// The row of replayed transaction `j`, reported under its original index. Its
/// replay refund is the entry execution recorded for replay index `j`; its
/// receipt refund is the payload refund.
pub open spec fn spec_replay_row(
    block: ReplayBlock,
    config: SdmReplayConfig,
    execution: ReplayExecution,
    j: int,
) -> SdmReplayTxView {
    let original_indexes = spec_replay_indexes(block);
    let tx_index = original_indexes[j];
    let tx = block.transactions@[tx_index as int];
    let gas_used = spec_gas_used(execution.cumulative_gas_used@, j);
    let replay_refund = spec_or_zero(spec_lookup(spec_replay_refunds(execution.entries@), j as u64));
    let payload_refund = spec_lookup(spec_payload_refunds(block), tx_index);
    SdmReplayTxView {
        tx_index,
        replay_tx_index: j as u64,
        tx_hash: tx.tx_hash,
        tx_type: tx.tx_type,
        is_deposit_tx: tx.is_deposit,
        gas_used,
        op_gas_refund_replay: replay_refund,
        op_gas_refund_payload: payload_refund,
        op_gas_refund_receipt: payload_refund,
        effective_gas: spec_saturating_sub(gas_used, replay_refund),
        refund_breakdown: spec_refund_breakdown(
            execution.warming_events_by_tx@,
            j,
            original_indexes,
        ),
        mismatch: spec_payload_mismatched(config, spec_payload_present(block), payload_refund, replay_refund)
            || spec_receipt_mismatched(config, spec_payload_present(block), payload_refund, replay_refund),
    }
}

/// Mismatch rows of a transaction row: the payload comparison, then the receipt one.
pub open spec fn spec_row_mismatches(
    block_number: u64,
    config: SdmReplayConfig,
    payload_present: bool,
    row: SdmReplayTxView,
) -> Seq<SdmReplayMismatchView> {
    let payload_part = if spec_payload_mismatched(
        config,
        payload_present,
        row.op_gas_refund_payload,
        row.op_gas_refund_replay,
    ) {
        seq![
            spec_mismatch(
                SdmReplayMismatchKind::PayloadRefundMismatch,
                block_number,
                row.tx_index,
                row.op_gas_refund_payload,
                Some(row.op_gas_refund_replay),
                "payload refund mismatch for tx index ",
            ),
        ]
    } else {
        Seq::empty()
    };
    let receipt_part = if spec_receipt_mismatched(
        config,
        payload_present,
        row.op_gas_refund_receipt,
        row.op_gas_refund_replay,
    ) {
        seq![
            spec_mismatch(
                SdmReplayMismatchKind::ReceiptRefundMismatch,
                block_number,
                row.tx_index,
                row.op_gas_refund_receipt,
                Some(row.op_gas_refund_replay),
                "receipt refund mismatch for tx index ",
            ),
        ]
    } else {
        Seq::empty()
    };
    payload_part + receipt_part
}

/// Mismatch rows of the first `k` transaction rows, in order.
pub open spec fn spec_rows_mismatches(
    block_number: u64,
    config: SdmReplayConfig,
    payload_present: bool,
    rows: Seq<SdmReplayTxView>,
    k: int,
) -> Seq<SdmReplayMismatchView>
    decreases k,
{
    if k <= 0 {
        Seq::empty()
    } else {
        spec_rows_mismatches(block_number, config, payload_present, rows, k - 1) + spec_row_mismatches(
            block_number,
            config,
            payload_present,
            rows[k - 1],
        )
    }
}

/// The rows of all replayed transactions.
pub open spec fn spec_replay_rows(
    block: ReplayBlock,
    config: SdmReplayConfig,
    execution: ReplayExecution,
) -> Seq<SdmReplayTxView> {
    Seq::new(
        spec_replay_indexes(block).len(),
        |j: int| spec_replay_row(block, config, execution, j),
    )
}

/// Sum of `f` over `rows`.
pub open spec fn spec_rows_sum(rows: Seq<SdmReplayTxView>, f: spec_fn(SdmReplayTxView) -> nat) -> nat
    decreases rows.len(),
{
    if rows.len() == 0 {
        0
    } else {
        spec_rows_sum(rows.drop_last(), f) + f(rows.last())
    }
}

/// Gas used by a row.
pub open spec fn spec_row_gas_used(row: SdmReplayTxView) -> nat {
    row.gas_used as nat
}

/// Replay refund of a row.
pub open spec fn spec_row_replay_refund(row: SdmReplayTxView) -> nat {
    row.op_gas_refund_replay as nat
}

/// Payload refund of a row, zero when it has none.
pub open spec fn spec_row_payload_refund(row: SdmReplayTxView) -> nat {
    spec_or_zero(row.op_gas_refund_payload) as nat
}

/// Receipt refund of a row, zero when it has none.
pub open spec fn spec_row_receipt_refund(row: SdmReplayTxView) -> nat {
    spec_or_zero(row.op_gas_refund_receipt) as nat
}

/// One for a row of a user (non-deposit) transaction.
pub open spec fn spec_row_is_user(row: SdmReplayTxView) -> nat {
    if row.is_deposit_tx {
        0
    } else {
        1
    }
}

/// Whether the block totals of a replay fit in a `u64`, as their sums need.
pub open spec fn spec_replay_totals_fit(
    block: ReplayBlock,
    config: SdmReplayConfig,
    execution: ReplayExecution,
) -> bool {
    let rows = spec_replay_rows(block, config, execution);
    &&& spec_rows_sum(rows, |r: SdmReplayTxView| spec_row_gas_used(r)) <= u64::MAX
    &&& spec_rows_sum(rows, |r: SdmReplayTxView| spec_row_replay_refund(r)) <= u64::MAX
    &&& spec_rows_sum(rows, |r: SdmReplayTxView| spec_row_payload_refund(r)) <= u64::MAX
}

/// Number of entries with a non-zero refund.
pub open spec fn spec_nonzero_entry_count(entries: Seq<SDMGasEntry>) -> nat
    decreases entries.len(),
{
    if entries.len() == 0 {
        0
    } else {
        spec_nonzero_entry_count(entries.drop_last()) + if entries.last().gas_refund != 0 {
            1nat
        } else {
            0nat
        }
    }
}

/// The payload that replay synthesizes from the entries execution collected.
pub open spec fn spec_synthesized_payload(execution: ReplayExecution) -> SDMPayloadView {
    SDMPayloadView { version: 1, entries: execution.entries@ }
}

/// The result of replaying `block` under `config`, given the outcome of execution.
pub open spec fn spec_replay_result(
    block: ReplayBlock,
    config: SdmReplayConfig,
    execution: ReplayExecution,
) -> SdmReplayBlockView {
    let rows = spec_replay_rows(block, config, execution);
    let mismatches = spec_payload_mismatches(block) + spec_rows_mismatches(
        block.number,
        config,
        spec_payload_present(block),
        rows,
        rows.len() as int,
    );
    let block_gas_used = spec_rows_sum(rows, |r: SdmReplayTxView| spec_row_gas_used(r)) as u64;
    let replay_refund_total = spec_rows_sum(rows, |r: SdmReplayTxView| spec_row_replay_refund(r)) as u64;
    let sdm_tx_index = match spec_last_sdm_position(block.transactions@) {
        Some(i) => Some(i as u64),
        None => None,
    };
    SdmReplayBlockView {
        config,
        block_num: block.number,
        block_hash: block.hash,
        parent_hash: block.parent_hash,
        sdm_tx_present: sdm_tx_index is Some,
        sdm_tx_index,
        embedded_payload: match spec_embedded_payload(block.transactions@) {
            Some(p) => Some(spec_replay_payload(p)),
            None => None,
        },
        synthesized_payload: spec_replay_payload(spec_synthesized_payload(execution)),
        synthesized_payload_bytes: spec_payload_encoding(spec_synthesized_payload(execution)),
        txs: rows,
        mismatches,
        summary: SdmReplaySummary {
            block_num: block.number,
            block_hash: block.hash,
            tx_count_total: rows.len() as usize,
            tx_count_user: spec_rows_sum(rows, |r: SdmReplayTxView| spec_row_is_user(r)) as usize,
            sdm_tx_present: sdm_tx_index is Some,
            sdm_payload_entry_count: spec_nonzero_entry_count(execution.entries@) as usize,
            block_gas_used,
            replay_refund_total,
            payload_refund_total: spec_rows_sum(rows, |r: SdmReplayTxView| spec_row_payload_refund(r)) as u64,
            node_receipt_refund_total: spec_rows_sum(
                rows,
                |r: SdmReplayTxView| spec_row_receipt_refund(r),
            ) as u64,
            block_effective_gas: spec_saturating_sub(block_gas_used, replay_refund_total),
            mismatch_count: mismatches.len() as usize,
            replay_mode: config.mode,
        },
    }
}

/// A prefix of the rows sums to no more than all of them.
pub proof fn lemma_rows_sum_prefix(rows: Seq<SdmReplayTxView>, f: spec_fn(SdmReplayTxView) -> nat, i: int)
    requires
        0 <= i <= rows.len(),
    ensures
        spec_rows_sum(rows.take(i), f) <= spec_rows_sum(rows, f),
    decreases rows.len(),
{
    if i == rows.len() {
        assert(rows.take(i) =~= rows);
    } else {
        lemma_rows_sum_prefix(rows.drop_last(), f, i);
        assert(rows.drop_last().take(i) =~= rows.take(i));
    }
}

/// Summing one more row adds its value.
pub proof fn lemma_rows_sum_step(rows: Seq<SdmReplayTxView>, f: spec_fn(SdmReplayTxView) -> nat, i: int)
    requires
        0 <= i < rows.len(),
    ensures
        spec_rows_sum(rows.take(i + 1), f) == spec_rows_sum(rows.take(i), f) + f(rows[i]),
{
    assert(rows.take(i + 1).drop_last() =~= rows.take(i));
}

/// Two functions that agree on every row have the same sum.
pub proof fn lemma_rows_sum_agree(
    rows: Seq<SdmReplayTxView>,
    f: spec_fn(SdmReplayTxView) -> nat,
    g: spec_fn(SdmReplayTxView) -> nat,
)
    requires
        forall|i: int| 0 <= i < rows.len() ==> f(rows[i]) == g(rows[i]),
    ensures
        spec_rows_sum(rows, f) == spec_rows_sum(rows, g),
    decreases rows.len(),
{
    if rows.len() > 0 {
        assert forall|i: int| 0 <= i < rows.drop_last().len() implies f(rows.drop_last()[i]) == g(
            rows.drop_last()[i],
        ) by {
            assert(rows.drop_last()[i] == rows[i]);
        }
        lemma_rows_sum_agree(rows.drop_last(), f, g);
    }
}

/// Refunds that execution collected, by transaction index.
fn collect_replay_refunds(entries: &Vec<SDMGasEntry>) -> (refunds: BTreeMap<u64, u64>)
    ensures
        refunds@ == spec_replay_refunds(entries@),
{
    let mut refunds: BTreeMap<u64, u64> = BTreeMap::new();
    let mut i: usize = 0;
    while i < entries.len()
        invariant
            i <= entries@.len(),
            refunds@ == spec_replay_refunds(entries@.take(i as int)),
        decreases entries@.len() - i,
    {
        let entry = entries[i];
        proof {
            assert(entries@.take(i + 1).drop_last() =~= entries@.take(i as int));
        }
        refunds.insert(entry.index, entry.gas_refund);
        i = i + 1;
    }
    proof {
        assert(entries@.take(i as int) =~= entries@);
    }
    refunds
}

/// Number of entries with a non-zero refund.
fn nonzero_entry_count(entries: &Vec<SDMGasEntry>) -> (count: usize)
    ensures
        count == spec_nonzero_entry_count(entries@),
{
    let mut count: usize = 0;
    let mut i: usize = 0;
    while i < entries.len()
        invariant
            i <= entries@.len(),
            count == spec_nonzero_entry_count(entries@.take(i as int)),
            count <= i,
        decreases entries@.len() - i,
    {
        proof {
            assert(entries@.take(i + 1).drop_last() =~= entries@.take(i as int));
        }
        if entries[i].gas_refund != 0 {
            count = count + 1;
        }
        i = i + 1;
    }
    proof {
        assert(entries@.take(i as int) =~= entries@);
    }
    count
}

/// The refund recorded for `index`, if any.
fn lookup_refund(refunds: &BTreeMap<u64, u64>, index: u64) -> (refund: Option<u64>)
    ensures
        refund == spec_lookup(refunds@, index),
{
    match refunds.get(&index) {
        Some(v) => Some(*v),
        None => None,
    }
}

/// Refund rows of replayed transaction `replay_idx`.
fn refund_breakdown(
    events_by_tx: &Vec<Vec<WarmingRefundEvent>>,
    replay_idx: usize,
    original_indexes: &Vec<u64>,
) -> (events: Vec<SdmReplayRefundEvent>)
    ensures
        events@ == spec_refund_breakdown(events_by_tx@, replay_idx as int, original_indexes@),
{
    let mut events: Vec<SdmReplayRefundEvent> = Vec::new();
    if replay_idx < events_by_tx.len() {
        let source = &events_by_tx[replay_idx];
        let mut i: usize = 0;
        while i < source.len()
            invariant
                i <= source@.len(),
                source@ == events_by_tx@[replay_idx as int]@,
                replay_idx < events_by_tx@.len(),
                events@ =~= spec_refund_breakdown(events_by_tx@, replay_idx as int, original_indexes@).take(
                    i as int,
                ),
            decreases source@.len() - i,
        {
            let event = into_refund_event(source[i], replay_idx as u64, original_indexes.as_slice());
            events.push(event);
            i = i + 1;
            assert(events@ =~= spec_refund_breakdown(events_by_tx@, replay_idx as int, original_indexes@).take(
                i as int,
            ));
        }
        assert(events@ =~= spec_refund_breakdown(events_by_tx@, replay_idx as int, original_indexes@));
    } else {
        assert(events@ =~= spec_refund_breakdown(events_by_tx@, replay_idx as int, original_indexes@));
    }
    events
}

/// Block totals of the rows: gas used, replay refund, payload refund, receipt
/// refund, and the number of user (non-deposit) transactions.
fn block_totals(txs: &Vec<SdmReplayTx>) -> (totals: (u64, u64, u64, u64, usize))
    requires
        spec_rows_sum(tx_views(txs@), |r: SdmReplayTxView| spec_row_gas_used(r)) <= u64::MAX,
        spec_rows_sum(tx_views(txs@), |r: SdmReplayTxView| spec_row_replay_refund(r)) <= u64::MAX,
        spec_rows_sum(tx_views(txs@), |r: SdmReplayTxView| spec_row_payload_refund(r)) <= u64::MAX,
        spec_rows_sum(tx_views(txs@), |r: SdmReplayTxView| spec_row_receipt_refund(r)) <= u64::MAX,
    ensures
        totals.0 == spec_rows_sum(tx_views(txs@), |r: SdmReplayTxView| spec_row_gas_used(r)),
        totals.1 == spec_rows_sum(tx_views(txs@), |r: SdmReplayTxView| spec_row_replay_refund(r)),
        totals.2 == spec_rows_sum(tx_views(txs@), |r: SdmReplayTxView| spec_row_payload_refund(r)),
        totals.3 == spec_rows_sum(tx_views(txs@), |r: SdmReplayTxView| spec_row_receipt_refund(r)),
        totals.4 == spec_rows_sum(tx_views(txs@), |r: SdmReplayTxView| spec_row_is_user(r)),
{
    let ghost rows = tx_views(txs@);
    let ghost fg = |r: SdmReplayTxView| spec_row_gas_used(r);
    let ghost fr = |r: SdmReplayTxView| spec_row_replay_refund(r);
    let ghost fp = |r: SdmReplayTxView| spec_row_payload_refund(r);
    let ghost fc = |r: SdmReplayTxView| spec_row_receipt_refund(r);
    let ghost fu = |r: SdmReplayTxView| spec_row_is_user(r);
    let mut gas: u64 = 0;
    let mut replay: u64 = 0;
    let mut payload: u64 = 0;
    let mut receipt: u64 = 0;
    let mut users: usize = 0;
    let mut i: usize = 0;
    while i < txs.len()
        invariant
            i <= txs@.len(),
            rows == tx_views(txs@),
            rows.len() == txs@.len(),
            fg == (|r: SdmReplayTxView| spec_row_gas_used(r)),
            fr == (|r: SdmReplayTxView| spec_row_replay_refund(r)),
            fp == (|r: SdmReplayTxView| spec_row_payload_refund(r)),
            fc == (|r: SdmReplayTxView| spec_row_receipt_refund(r)),
            fu == (|r: SdmReplayTxView| spec_row_is_user(r)),
            spec_rows_sum(rows, fg) <= u64::MAX,
            spec_rows_sum(rows, fr) <= u64::MAX,
            spec_rows_sum(rows, fp) <= u64::MAX,
            spec_rows_sum(rows, fc) <= u64::MAX,
            gas == spec_rows_sum(rows.take(i as int), fg),
            replay == spec_rows_sum(rows.take(i as int), fr),
            payload == spec_rows_sum(rows.take(i as int), fp),
            receipt == spec_rows_sum(rows.take(i as int), fc),
            users == spec_rows_sum(rows.take(i as int), fu),
            users <= i,
        decreases txs@.len() - i,
    {
        let tx = &txs[i];
        proof {
            assert(rows[i as int] == tx@);
            lemma_rows_sum_step(rows, fg, i as int);
            lemma_rows_sum_step(rows, fr, i as int);
            lemma_rows_sum_step(rows, fp, i as int);
            lemma_rows_sum_step(rows, fc, i as int);
            lemma_rows_sum_step(rows, fu, i as int);
            lemma_rows_sum_prefix(rows, fg, i + 1);
            lemma_rows_sum_prefix(rows, fr, i + 1);
            lemma_rows_sum_prefix(rows, fp, i + 1);
            lemma_rows_sum_prefix(rows, fc, i + 1);
        }
        gas = gas + tx.gas_used;
        replay = replay + tx.op_gas_refund_replay;
        payload = payload + match tx.op_gas_refund_payload {
            Some(v) => v,
            None => 0,
        };
        receipt = receipt + match tx.op_gas_refund_receipt {
            Some(v) => v,
            None => 0,
        };
        if !tx.is_deposit_tx {
            users = users + 1;
        }
        i = i + 1;
    }
    proof {
        assert(rows.take(i as int) =~= rows);
    }
    (gas, replay, payload, receipt, users)
}

/// Block totals of the rows, or `None` when one of them does not fit in a `u64`.
fn checked_block_totals(txs: &Vec<SdmReplayTx>) -> (totals: Option<(u64, u64, u64, u64, usize)>)
    ensures
        match totals {
            Some(t) => {
                &&& t.0 == spec_rows_sum(tx_views(txs@), |r: SdmReplayTxView| spec_row_gas_used(r))
                &&& t.1 == spec_rows_sum(tx_views(txs@), |r: SdmReplayTxView| spec_row_replay_refund(r))
                &&& t.2 == spec_rows_sum(tx_views(txs@), |r: SdmReplayTxView| spec_row_payload_refund(r))
                &&& t.3 == spec_rows_sum(tx_views(txs@), |r: SdmReplayTxView| spec_row_receipt_refund(r))
                &&& t.4 == spec_rows_sum(tx_views(txs@), |r: SdmReplayTxView| spec_row_is_user(r))
            },
            None => {
                ||| spec_rows_sum(tx_views(txs@), |r: SdmReplayTxView| spec_row_gas_used(r)) > u64::MAX
                ||| spec_rows_sum(tx_views(txs@), |r: SdmReplayTxView| spec_row_replay_refund(r)) > u64::MAX
                ||| spec_rows_sum(tx_views(txs@), |r: SdmReplayTxView| spec_row_payload_refund(r)) > u64::MAX
                ||| spec_rows_sum(tx_views(txs@), |r: SdmReplayTxView| spec_row_receipt_refund(r)) > u64::MAX
            },
        },
{
    let ghost rows = tx_views(txs@);
    let ghost fg = |r: SdmReplayTxView| spec_row_gas_used(r);
    let ghost fr = |r: SdmReplayTxView| spec_row_replay_refund(r);
    let ghost fp = |r: SdmReplayTxView| spec_row_payload_refund(r);
    let ghost fc = |r: SdmReplayTxView| spec_row_receipt_refund(r);
    let ghost fu = |r: SdmReplayTxView| spec_row_is_user(r);
    let mut gas: u64 = 0;
    let mut replay: u64 = 0;
    let mut payload: u64 = 0;
    let mut receipt: u64 = 0;
    let mut users: usize = 0;
    let mut i: usize = 0;
    while i < txs.len()
        invariant
            i <= txs@.len(),
            rows == tx_views(txs@),
            rows.len() == txs@.len(),
            fg == (|r: SdmReplayTxView| spec_row_gas_used(r)),
            fr == (|r: SdmReplayTxView| spec_row_replay_refund(r)),
            fp == (|r: SdmReplayTxView| spec_row_payload_refund(r)),
            fc == (|r: SdmReplayTxView| spec_row_receipt_refund(r)),
            fu == (|r: SdmReplayTxView| spec_row_is_user(r)),
            gas == spec_rows_sum(rows.take(i as int), fg),
            replay == spec_rows_sum(rows.take(i as int), fr),
            payload == spec_rows_sum(rows.take(i as int), fp),
            receipt == spec_rows_sum(rows.take(i as int), fc),
            users == spec_rows_sum(rows.take(i as int), fu),
            users <= i,
        decreases txs@.len() - i,
    {
        let tx = &txs[i];
        proof {
            assert(rows[i as int] == tx@);
            lemma_rows_sum_step(rows, fg, i as int);
            lemma_rows_sum_step(rows, fr, i as int);
            lemma_rows_sum_step(rows, fp, i as int);
            lemma_rows_sum_step(rows, fc, i as int);
            lemma_rows_sum_step(rows, fu, i as int);
            lemma_rows_sum_prefix(rows, fg, i + 1);
            lemma_rows_sum_prefix(rows, fr, i + 1);
            lemma_rows_sum_prefix(rows, fp, i + 1);
            lemma_rows_sum_prefix(rows, fc, i + 1);
        }
        gas = match gas.checked_add(tx.gas_used) {
            Some(v) => v,
            None => {
                return None;
            },
        };
        replay = match replay.checked_add(tx.op_gas_refund_replay) {
            Some(v) => v,
            None => {
                return None;
            },
        };
        let tx_payload = match tx.op_gas_refund_payload {
            Some(v) => v,
            None => 0,
        };
        payload = match payload.checked_add(tx_payload) {
            Some(v) => v,
            None => {
                return None;
            },
        };
        let tx_receipt = match tx.op_gas_refund_receipt {
            Some(v) => v,
            None => 0,
        };
        receipt = match receipt.checked_add(tx_receipt) {
            Some(v) => v,
            None => {
                return None;
            },
        };
        if !tx.is_deposit_tx {
            users = users + 1;
        }
        i = i + 1;
    }
    proof {
        assert(rows.take(i as int) =~= rows);
    }
    Some((gas, replay, payload, receipt, users))
}

/// The rows of the replayed transactions; their mismatch rows are appended to `mismatches`.
fn replay_rows(
    block: &ReplayBlock,
    config: SdmReplayConfig,
    execution: &ReplayExecution,
    original_indexes: &Vec<u64>,
    payload_present: bool,
    payload_refunds: &BTreeMap<u64, u64>,
    mismatches: &mut Vec<SdmReplayMismatch>,
) -> (txs: Vec<SdmReplayTx>)
    requires
        original_indexes@ == spec_replay_indexes(*block),
        payload_present == spec_payload_present(*block),
        execution.cumulative_gas_used@.len() >= original_indexes@.len(),
        payload_refunds@ == spec_payload_refunds(*block),
    ensures
        tx_views(txs@) == spec_replay_rows(*block, config, *execution),
        mismatch_views(final(mismatches)@) == mismatch_views(old(mismatches)@) + spec_rows_mismatches(
            block.number,
            config,
            payload_present,
            spec_replay_rows(*block, config, *execution),
            original_indexes@.len() as int,
        ),
{
    let ghost rows = spec_replay_rows(*block, config, *execution);
    let ghost start = mismatch_views(mismatches@);
    let replay_refunds = collect_replay_refunds(&execution.entries);
    let receipt_refunds = payload_refunds.clone();
    let n = original_indexes.len();
    let tx_count = block.transactions.len();
    proof {
        lemma_kept_indexes(spec_tx_types(block.transactions@));
        assert(start + spec_rows_mismatches(block.number, config, payload_present, rows, 0) =~= start);
    }
    let mut txs: Vec<SdmReplayTx> = Vec::new();
    let mut previous_cumulative_gas: u64 = 0;
    let mut replay_idx: usize = 0;
    while replay_idx < n
        invariant
            replay_idx <= n,
            n == original_indexes@.len(),
            original_indexes@ == spec_replay_indexes(*block),
            tx_count == block.transactions@.len(),
            forall|k: int| 0 <= k < n ==> original_indexes@[k] < tx_count,
            rows == spec_replay_rows(*block, config, *execution),
            execution.cumulative_gas_used@.len() >= n,
            replay_refunds@ == spec_replay_refunds(execution.entries@),
            payload_refunds@ == spec_payload_refunds(*block),
            receipt_refunds@ == payload_refunds@,
            tx_views(txs@) == rows.take(replay_idx as int),
            payload_present == spec_payload_present(*block),
            mismatch_views(mismatches@) == start + spec_rows_mismatches(
                block.number,
                config,
                payload_present,
                rows,
                replay_idx as int,
            ),
            previous_cumulative_gas == if replay_idx == 0 {
                0
            } else {
                execution.cumulative_gas_used@[replay_idx - 1]
            },
        decreases n - replay_idx,
    {
        let ghost row = spec_replay_row(*block, config, *execution, replay_idx as int);
        let ghost before_txs = txs@;
        let ghost before_mismatches = mismatches@;
        assert(rows[replay_idx as int] == row);
        let tx_index = original_indexes[replay_idx];
        let tx = &block.transactions[tx_index as usize];
        let cumulative_gas_used = execution.cumulative_gas_used[replay_idx];
        let gas_used = cumulative_gas_used.saturating_sub(previous_cumulative_gas);
        previous_cumulative_gas = cumulative_gas_used;
        let replay_refund = match lookup_refund(&replay_refunds, replay_idx as u64) {
            Some(v) => v,
            None => 0,
        };
        let payload_refund = lookup_refund(payload_refunds, tx_index);
        let receipt_refund = lookup_refund(&receipt_refunds, tx_index);
        let breakdown = refund_breakdown(&execution.warming_events_by_tx, replay_idx, original_indexes);
        let mut mismatch = false;
        let payload_value = match payload_refund {
            Some(v) => v,
            None => 0,
        };
        if config.compare_payload && payload_present && payload_value != replay_refund {
            mismatch = true;
            mismatches.push(
                SdmReplayMismatch {
                    category: SdmReplayMismatchKind::PayloadRefundMismatch,
                    block_num: block.number,
                    tx_index: Some(tx_index),
                    expected: payload_refund,
                    actual: Some(replay_refund),
                    message: index_message("payload refund mismatch for tx index ", tx_index),
                },
            );
        }
        let ghost middle_mismatches = mismatches@;
        let receipt_value = match receipt_refund {
            Some(v) => v,
            None => 0,
        };
        if config.compare_receipts && payload_present && receipt_value != replay_refund {
            mismatch = true;
            mismatches.push(
                SdmReplayMismatch {
                    category: SdmReplayMismatchKind::ReceiptRefundMismatch,
                    block_num: block.number,
                    tx_index: Some(tx_index),
                    expected: receipt_refund,
                    actual: Some(replay_refund),
                    message: index_message("receipt refund mismatch for tx index ", tx_index),
                },
            );
        }
        let replay_tx = SdmReplayTx {
            tx_index,
            replay_tx_index: replay_idx as u64,
            tx_hash: tx.tx_hash,
            tx_type: tx.tx_type,
            is_deposit_tx: tx.is_deposit,
            gas_used,
            op_gas_refund_replay: replay_refund,
            op_gas_refund_payload: payload_refund,
            op_gas_refund_receipt: receipt_refund,
            effective_gas: gas_used.saturating_sub(replay_refund),
            refund_breakdown: breakdown,
            mismatch,
        };
        assert(replay_tx@ =~= row);
        txs.push(replay_tx);
        proof {
            assert(tx_views(txs@) =~= tx_views(before_txs).push(row));
            assert(rows.take(replay_idx + 1) =~= rows.take(replay_idx as int).push(row));
            let payload_part = if spec_payload_mismatched(
                config,
                payload_present,
                row.op_gas_refund_payload,
                row.op_gas_refund_replay,
            ) {
                seq![middle_mismatches.last()@]
            } else {
                Seq::<SdmReplayMismatchView>::empty()
            };
            assert(mismatch_views(middle_mismatches) =~= mismatch_views(before_mismatches)
                + payload_part);
            assert(mismatch_views(mismatches@) =~= mismatch_views(before_mismatches)
                + spec_row_mismatches(block.number, config, payload_present, row));
        }
        replay_idx = replay_idx + 1;
    }
    proof {
        assert(rows.take(n as int) =~= rows);
    }
    txs
}

/// The replay result from its rows, mismatches and block totals.
fn finish_replay(
    block: &ReplayBlock,
    config: SdmReplayConfig,
    execution: &ReplayExecution,
    normalized: NormalizedBlock,
    txs: Vec<SdmReplayTx>,
    mismatches: Vec<SdmReplayMismatch>,
    totals: (u64, u64, u64, u64, usize),
) -> (result: SdmReplayBlock)
    requires
        normalized.sdm_tx_index == match spec_last_sdm_position(block.transactions@) {
            Some(i) => Some(i as u64),
            None => None::<u64>,
        },
        match normalized.embedded_payload {
            Some(p) => spec_embedded_payload(block.transactions@) == Some(p@),
            None => spec_embedded_payload(block.transactions@) is None,
        },
        tx_views(txs@) == spec_replay_rows(*block, config, *execution),
        mismatch_views(mismatches@) == spec_replay_result(*block, config, *execution).mismatches,
        totals.0 == spec_rows_sum(tx_views(txs@), |r: SdmReplayTxView| spec_row_gas_used(r)),
        totals.1 == spec_rows_sum(tx_views(txs@), |r: SdmReplayTxView| spec_row_replay_refund(r)),
        totals.2 == spec_rows_sum(tx_views(txs@), |r: SdmReplayTxView| spec_row_payload_refund(r)),
        totals.3 == spec_rows_sum(tx_views(txs@), |r: SdmReplayTxView| spec_row_receipt_refund(r)),
        totals.4 == spec_rows_sum(tx_views(txs@), |r: SdmReplayTxView| spec_row_is_user(r)),
        spec_payload_encoding(spec_synthesized_payload(*execution)).len() <= usize::MAX,
    ensures
        result@ == spec_replay_result(*block, config, *execution),
{
    let (block_gas_used, replay_refund_total, payload_refund_total, receipt_refund_total, tx_count_user) =
        totals;
    let replay_payload = SDMPayload { version: 1, entries: execution.entries.clone() };
    assert(replay_payload@ =~= spec_synthesized_payload(*execution));
    let sdm_tx_present = normalized.sdm_tx_index.is_some();
    let mismatch_count = mismatches.len();
    let summary = SdmReplaySummary {
        block_num: block.number,
        block_hash: block.hash,
        tx_count_total: txs.len(),
        tx_count_user,
        sdm_tx_present,
        sdm_payload_entry_count: nonzero_entry_count(&execution.entries),
        block_gas_used,
        replay_refund_total,
        payload_refund_total,
        node_receipt_refund_total: receipt_refund_total,
        block_effective_gas: block_gas_used.saturating_sub(replay_refund_total),
        mismatch_count,
        replay_mode: config.mode,
    };
    let synthesized_payload_bytes = replay_payload.to_rlp_bytes();
    let synthesized_payload = into_replay_payload(replay_payload);
    let embedded_payload = match normalized.embedded_payload {
        Some(p) => Some(into_replay_payload(p)),
        None => None,
    };
    let result = SdmReplayBlock {
        config,
        block_num: block.number,
        block_hash: block.hash,
        parent_hash: block.parent_hash,
        sdm_tx_present,
        sdm_tx_index: normalized.sdm_tx_index,
        embedded_payload,
        synthesized_payload,
        synthesized_payload_bytes,
        txs,
        mismatches,
        summary,
    };
    assert(result@ =~= spec_replay_result(*block, config, *execution));
    result
}

/// Normalization, the payload check and the rows of a replay.
fn replay_parts(block: &ReplayBlock, config: SdmReplayConfig, execution: &ReplayExecution) -> (parts: (
    NormalizedBlock,
    Vec<SdmReplayTx>,
    Vec<SdmReplayMismatch>,
))
    requires
        block.well_formed(),
        execution.cumulative_gas_used@.len() >= spec_replay_indexes(*block).len(),
    ensures
        parts.0.sdm_tx_index == match spec_last_sdm_position(block.transactions@) {
            Some(i) => Some(i as u64),
            None => None::<u64>,
        },
        match parts.0.embedded_payload {
            Some(p) => spec_embedded_payload(block.transactions@) == Some(p@),
            None => spec_embedded_payload(block.transactions@) is None,
        },
        tx_views(parts.1@) == spec_replay_rows(*block, config, *execution),
        mismatch_views(parts.2@) == spec_replay_result(*block, config, *execution).mismatches,
{
    let normalized = normalize_block(block);
    let mut mismatches: Vec<SdmReplayMismatch> = Vec::new();
    let payload_refunds = match &normalized.embedded_payload {
        Some(payload) => build_payload_map(block.number, &block.transactions, payload, &mut mismatches),
        None => BTreeMap::new(),
    };
    assert(mismatch_views(mismatches@) =~= spec_payload_mismatches(*block));
    let txs = replay_rows(
        block,
        config,
        execution,
        &normalized.original_indexes,
        normalized.embedded_payload.is_some(),
        &payload_refunds,
        &mut mismatches,
    );
    (normalized, txs, mismatches)
}

/// Replay a historical block with SDM enabled counterfactually, given the
/// outcome of executing its non-SDM transactions: only the counterfactual
/// mode is supported; otherwise the rows, mismatches and summary of
/// [`spec_replay_result`]. The block must be well formed, execution must have
/// reported the cumulative gas of every replayed transaction, and the block
/// totals must fit in a `u64`.
pub fn replay_block(
    block: &ReplayBlock,
    config: SdmReplayConfig,
    execution: &ReplayExecution,
) -> (res: Result<SdmReplayBlock, SdmReplayError>)
    requires
        block.well_formed(),
        config.mode == SdmMode::CounterfactualEnabled ==> {
            &&& execution.cumulative_gas_used@.len() >= spec_replay_indexes(*block).len()
            &&& spec_replay_totals_fit(*block, config, *execution)
            &&& spec_payload_encoding(spec_synthesized_payload(*execution)).len() <= usize::MAX
        },
    ensures
        config.mode != SdmMode::CounterfactualEnabled ==> res == Err::<SdmReplayBlock, SdmReplayError>(
            SdmReplayError::UnsupportedMode(config.mode),
        ),
        config.mode == SdmMode::CounterfactualEnabled ==> res is Ok && res->Ok_0@ == spec_replay_result(
            *block,
            config,
            *execution,
        ),
{
    if config.mode != SdmMode::CounterfactualEnabled {
        return Err(SdmReplayError::UnsupportedMode(config.mode));
    }
    let (normalized, txs, mismatches) = replay_parts(block, config, execution);
    proof {
        lemma_rows_sum_agree(
            tx_views(txs@),
            |r: SdmReplayTxView| spec_row_receipt_refund(r),
            |r: SdmReplayTxView| spec_row_payload_refund(r),
        );
    }
    let totals = block_totals(&txs);
    Ok(finish_replay(block, config, execution, normalized, txs, mismatches, totals))
}

/// [`replay_block`] for any execution outcome whose block totals may not fit
/// in a `u64`: `None` exactly when one of them does not, the result of
/// [`replay_block`] otherwise.
pub fn replay_block_checked(
    block: &ReplayBlock,
    config: SdmReplayConfig,
    execution: &ReplayExecution,
) -> (res: Option<Result<SdmReplayBlock, SdmReplayError>>)
    requires
        block.well_formed(),
        config.mode == SdmMode::CounterfactualEnabled ==> {
            &&& execution.cumulative_gas_used@.len() >= spec_replay_indexes(*block).len()
            &&& spec_payload_encoding(spec_synthesized_payload(*execution)).len() <= usize::MAX
        },
    ensures
        config.mode != SdmMode::CounterfactualEnabled ==> res == Some(
            Err::<SdmReplayBlock, SdmReplayError>(SdmReplayError::UnsupportedMode(config.mode)),
        ),
        config.mode == SdmMode::CounterfactualEnabled ==> (res is None <==> !spec_replay_totals_fit(
            *block,
            config,
            *execution,
        )),
        config.mode == SdmMode::CounterfactualEnabled && res is Some ==> res->Some_0 is Ok
            && res->Some_0->Ok_0@ == spec_replay_result(*block, config, *execution),
{
    if config.mode != SdmMode::CounterfactualEnabled {
        return Some(Err(SdmReplayError::UnsupportedMode(config.mode)));
    }
    let (normalized, txs, mismatches) = replay_parts(block, config, execution);
    proof {
        lemma_rows_sum_agree(
            tx_views(txs@),
            |r: SdmReplayTxView| spec_row_receipt_refund(r),
            |r: SdmReplayTxView| spec_row_payload_refund(r),
        );
    }
    match checked_block_totals(&txs) {
        Some(totals) => Some(Ok(finish_replay(block, config, execution, normalized, txs, mismatches, totals))),
        None => None,
    }
}

/// Law: the transactions kept for replay are exactly those that are not of the
/// SDM type, each under its original index, in block order.
pub proof fn lemma_kept_indexes_exact(tx_types: Seq<u8>)
    requires
        tx_types.len() <= u64::MAX,
    ensures
        forall|i: int|
            0 <= i < tx_types.len() ==> (tx_types[i] != SDM_TX_TYPE_ID <==> spec_kept_indexes(
                tx_types,
            ).contains(i as u64)),
        forall|a: int, b: int|
            0 <= a < b < spec_kept_indexes(tx_types).len() ==> spec_kept_indexes(tx_types)[a]
                < spec_kept_indexes(tx_types)[b],
    decreases tx_types.len(),
{
    if tx_types.len() > 0 {
        let prev = tx_types.drop_last();
        let last = (tx_types.len() - 1) as u64;
        lemma_kept_indexes_exact(prev);
        lemma_kept_indexes(prev);
        let kept = spec_kept_indexes(tx_types);
        let kept_prev = spec_kept_indexes(prev);
        assert forall|i: int|
            0 <= i < tx_types.len() implies (tx_types[i] != SDM_TX_TYPE_ID <==> kept.contains(
            i as u64,
        )) by {
            if i < prev.len() {
                assert(tx_types[i] == prev[i]);
                if tx_types.last() != SDM_TX_TYPE_ID {
                    if kept.contains(i as u64) {
                        let k = choose|k: int| 0 <= k < kept.len() && kept[k] == i as u64;
                        if k < kept_prev.len() {
                            assert(kept_prev[k] == i as u64);
                        }
                    }
                    if kept_prev.contains(i as u64) {
                        let k = choose|k: int| 0 <= k < kept_prev.len() && kept_prev[k] == i as u64;
                        assert(kept[k] == i as u64);
                    }
                }
            } else {
                if tx_types.last() == SDM_TX_TYPE_ID {
                    if kept.contains(i as u64) {
                        let k = choose|k: int| 0 <= k < kept.len() && kept[k] == i as u64;
                        assert(kept_prev[k] < prev.len());
                    }
                } else {
                    assert(kept[kept.len() - 1] == last);
                }
            }
        }
    }
}

/// Whether some entry of `entries` is for transaction `index`.
pub open spec fn spec_has_entry_for(entries: Seq<SDMGasEntry>, index: u64) -> bool {
    exists|i: int| 0 <= i < entries.len() && entries[i].index == index
}

/// Looking up an index in entries with one more at the end finds the first
/// entry for it among the earlier ones, else the new one.
pub proof fn lemma_gas_refund_for_idx_push(entries: Seq<SDMGasEntry>, e: SDMGasEntry, index: u64)
    ensures
        crate::payload::spec_gas_refund_for_idx(entries.push(e), index) == match crate::payload::spec_gas_refund_for_idx(
            entries,
            index,
        ) {
            Some(r) => Some(r),
            None => if e.index == index {
                Some(e.gas_refund)
            } else {
                None
            },
        },
        crate::payload::spec_gas_refund_for_idx(entries, index) is Some <==> spec_has_entry_for(
            entries,
            index,
        ),
    decreases entries.len(),
{
    if entries.len() == 0 {
        assert(entries.push(e).drop_first() =~= Seq::<SDMGasEntry>::empty());
        assert(entries.push(e)[0] == e);
        assert(crate::payload::spec_gas_refund_for_idx(entries.push(e).drop_first(), index) is None);
        assert(crate::payload::spec_gas_refund_for_idx(entries, index) is None);
    } else {
        let rest = entries.drop_first();
        lemma_gas_refund_for_idx_push(rest, e, index);
        assert(entries.push(e).drop_first() =~= rest.push(e));
        assert(entries.push(e)[0] == entries[0]);
        if spec_has_entry_for(rest, index) {
            let i = choose|i: int| 0 <= i < rest.len() && rest[i].index == index;
            assert(entries[i + 1] == rest[i]);
        }
        if spec_has_entry_for(entries, index) && entries[0].index != index {
            let i = choose|i: int| 0 <= i < entries.len() && entries[i].index == index;
            assert(rest[i - 1] == entries[i]);
        }
    }
}

/// Law: checking a payload's entries against the block accounts for each
/// entry exactly once, as a counted refund or as a mismatch row; a refund is
/// only counted for a transaction of the block that is neither a deposit nor
/// the SDM transaction, and it is the refund of the first entry for that
/// transaction, the one that `SDMPayload::gas_refund_for_idx` finds.
pub proof fn lemma_payload_scan_accounts_for_entries(
    block_number: u64,
    txs: Seq<ReplayTx>,
    entries: Seq<SDMGasEntry>,
)
    ensures
        ({
            let scan = spec_payload_scan(block_number, txs, entries);
            &&& scan.refunds.dom().finite()
            &&& scan.refunds.dom().len() + scan.mismatches.len() == entries.len()
            &&& forall|k: u64|
                #![trigger scan.refunds.contains_key(k)]
                scan.refunds.contains_key(k) ==> {
                    &&& k < txs.len()
                    &&& !txs[k as int].is_deposit
                    &&& txs[k as int].tx_type != SDM_TX_TYPE_ID
                    &&& crate::payload::spec_gas_refund_for_idx(entries, k) == Some(scan.refunds[k])
                }
        }),
{
    lemma_payload_scan_invariant(block_number, txs, entries);
}

proof fn lemma_payload_scan_invariant(block_number: u64, txs: Seq<ReplayTx>, entries: Seq<SDMGasEntry>)
    ensures
        ({
            let scan = spec_payload_scan(block_number, txs, entries);
            &&& scan.seen.finite()
            &&& scan.refunds.dom().finite()
            &&& forall|k: u64| #[trigger] scan.seen.contains(k) <==> spec_has_entry_for(entries, k)
            &&& forall|k: u64| #[trigger] scan.refunds.contains_key(k) ==> scan.seen.contains(k)
            &&& scan.refunds.dom().len() + scan.mismatches.len() == entries.len()
            &&& forall|k: u64|
                #![trigger scan.refunds.contains_key(k)]
                scan.refunds.contains_key(k) ==> {
                    &&& k < txs.len()
                    &&& !txs[k as int].is_deposit
                    &&& txs[k as int].tx_type != SDM_TX_TYPE_ID
                    &&& crate::payload::spec_gas_refund_for_idx(entries, k) == Some(scan.refunds[k])
                }
        }),
    decreases entries.len(),
{
    if entries.len() == 0 {
        let scan = spec_payload_scan(block_number, txs, entries);
        assert(scan.refunds.dom() =~= Set::<u64>::empty());
    } else {
        let prev_entries = entries.drop_last();
        let e = entries.last();
        lemma_payload_scan_invariant(block_number, txs, prev_entries);
        let prev = spec_payload_scan(block_number, txs, prev_entries);
        let scan = spec_payload_scan(block_number, txs, entries);
        assert(entries == prev_entries.push(e));
        assert forall|k: u64| spec_has_entry_for(entries, k) <==> spec_has_entry_for(prev_entries, k)
            || e.index == k by {
            if spec_has_entry_for(prev_entries, k) {
                let i = choose|i: int| 0 <= i < prev_entries.len() && prev_entries[i].index == k;
                assert(entries[i] == prev_entries[i]);
            }
            if spec_has_entry_for(entries, k) && e.index != k {
                let i = choose|i: int| 0 <= i < entries.len() && entries[i].index == k;
                assert(prev_entries[i] == entries[i]);
            }
            if e.index == k {
                assert(entries[entries.len() - 1] == e);
            }
        }
        assert forall|k: u64| #[trigger] scan.refunds.contains_key(k) implies {
            &&& k < txs.len()
            &&& !txs[k as int].is_deposit
            &&& txs[k as int].tx_type != SDM_TX_TYPE_ID
            &&& crate::payload::spec_gas_refund_for_idx(entries, k) == Some(scan.refunds[k])
        } by {
            lemma_gas_refund_for_idx_push(prev_entries, e, k);
            if prev.refunds.contains_key(k) {
                assert(prev.seen.contains(k));
            }
        }
        if !prev.seen.contains(e.index) && scan.refunds.contains_key(e.index) && !prev.refunds.contains_key(
            e.index,
        ) {
            assert(scan.refunds.dom() =~= prev.refunds.dom().insert(e.index));
        } else {
            assert(scan.refunds.dom() =~= prev.refunds.dom());
        }
    }
}

/// Law: when the cumulative gas that execution reports never decreases, the
/// gas used by the replayed transactions adds up to the last cumulative gas.
pub proof fn lemma_block_gas_used_is_last_cumulative(
    block: ReplayBlock,
    config: SdmReplayConfig,
    execution: ReplayExecution,
)
    requires
        spec_replay_indexes(block).len() > 0,
        execution.cumulative_gas_used@.len() >= spec_replay_indexes(block).len(),
        forall|a: int, b: int|
            0 <= a <= b < spec_replay_indexes(block).len() ==> execution.cumulative_gas_used@[a]
                <= execution.cumulative_gas_used@[b],
    ensures
        spec_rows_sum(spec_replay_rows(block, config, execution), |r: SdmReplayTxView| spec_row_gas_used(r))
            == execution.cumulative_gas_used@[spec_replay_indexes(block).len() - 1],
{
    let rows = spec_replay_rows(block, config, execution);
    lemma_gas_used_prefix(block, config, execution, rows.len() as int);
    assert(rows.take(rows.len() as int) =~= rows);
}

proof fn lemma_gas_used_prefix(
    block: ReplayBlock,
    config: SdmReplayConfig,
    execution: ReplayExecution,
    j: int,
)
    requires
        1 <= j <= spec_replay_indexes(block).len(),
        execution.cumulative_gas_used@.len() >= spec_replay_indexes(block).len(),
        forall|a: int, b: int|
            0 <= a <= b < spec_replay_indexes(block).len() ==> execution.cumulative_gas_used@[a]
                <= execution.cumulative_gas_used@[b],
    ensures
        spec_rows_sum(
            spec_replay_rows(block, config, execution).take(j),
            |r: SdmReplayTxView| spec_row_gas_used(r),
        ) == execution.cumulative_gas_used@[j - 1],
    decreases j,
{
    let rows = spec_replay_rows(block, config, execution);
    let f = |r: SdmReplayTxView| spec_row_gas_used(r);
    if j == 1 {
        lemma_rows_sum_step(rows, f, 0);
        assert(rows.take(0) =~= Seq::<SdmReplayTxView>::empty());
    } else {
        lemma_gas_used_prefix(block, config, execution, j - 1);
        lemma_rows_sum_step(rows, f, j - 1);
    }
}

/// Law: the receipt refunds of a replay are projected from the embedded
/// payload, so their total is the payload refund total.
pub proof fn lemma_receipt_total_is_payload_total(
    block: ReplayBlock,
    config: SdmReplayConfig,
    execution: ReplayExecution,
)
    ensures
        spec_replay_result(block, config, execution).summary.node_receipt_refund_total
            == spec_replay_result(block, config, execution).summary.payload_refund_total,
{
    lemma_rows_sum_agree(
        spec_replay_rows(block, config, execution),
        |r: SdmReplayTxView| spec_row_receipt_refund(r),
        |r: SdmReplayTxView| spec_row_payload_refund(r),
    );
}


/// The payload check reports only entry problems, never a refund comparison.
proof fn lemma_payload_scan_categories(block_number: u64, txs: Seq<ReplayTx>, entries: Seq<SDMGasEntry>)
    ensures
        forall|i: int|
            0 <= i < spec_payload_scan(block_number, txs, entries).mismatches.len() ==> {
                let c = #[trigger] spec_payload_scan(block_number, txs, entries).mismatches[i].category;
                c != SdmReplayMismatchKind::PayloadRefundMismatch && c != SdmReplayMismatchKind::ReceiptRefundMismatch
            },
    decreases entries.len(),
{
    if entries.len() > 0 {
        lemma_payload_scan_categories(block_number, txs, entries.drop_last());
    }
}

/// With receipt comparison off, the rows' mismatch rows are payload comparisons.
proof fn lemma_rows_mismatches_without_receipts(
    block_number: u64,
    config: SdmReplayConfig,
    payload_present: bool,
    rows: Seq<SdmReplayTxView>,
    k: int,
)
    requires
        !config.compare_receipts,
    ensures
        forall|i: int|
            0 <= i < spec_rows_mismatches(block_number, config, payload_present, rows, k).len()
                ==> #[trigger] spec_rows_mismatches(block_number, config, payload_present, rows, k)[i].category
                == SdmReplayMismatchKind::PayloadRefundMismatch,
    decreases k,
{
    if k > 0 {
        lemma_rows_mismatches_without_receipts(block_number, config, payload_present, rows, k - 1);
    }
}

/// With receipt comparison switched off, no replay reports a receipt refund
/// mismatch, and a row is flagged exactly when the block carries a payload,
/// payload comparison is on, and the row's payload refund (zero when the
/// payload has no entry for it) differs from its replay refund.
pub proof fn lemma_receipts_not_compared_when_off(
    block: ReplayBlock,
    config: SdmReplayConfig,
    execution: ReplayExecution,
)
    requires
        !config.compare_receipts,
    ensures
        ({
            let r = spec_replay_result(block, config, execution);
            &&& forall|i: int|
                0 <= i < r.mismatches.len() ==> #[trigger] r.mismatches[i].category
                    != SdmReplayMismatchKind::ReceiptRefundMismatch
            &&& forall|j: int|
                0 <= j < r.txs.len() ==> (#[trigger] r.txs[j].mismatch <==> {
                    &&& config.compare_payload
                    &&& spec_embedded_payload(block.transactions@) is Some
                    &&& (match r.txs[j].op_gas_refund_payload {
                        Some(x) => x,
                        None => 0,
                    }) != r.txs[j].op_gas_refund_replay
                })
        }),
{
    let r = spec_replay_result(block, config, execution);
    let rows = spec_replay_rows(block, config, execution);
    let head = spec_payload_mismatches(block);
    let tail = spec_rows_mismatches(block.number, config, spec_payload_present(block), rows, rows.len() as int);
    match spec_embedded_payload(block.transactions@) {
        Some(p) => lemma_payload_scan_categories(block.number, block.transactions@, p.entries),
        None => {},
    }
    lemma_rows_mismatches_without_receipts(block.number, config, spec_payload_present(block), rows, rows.len() as int);
    assert forall|i: int| 0 <= i < r.mismatches.len() implies #[trigger] r.mismatches[i].category
        != SdmReplayMismatchKind::ReceiptRefundMismatch by {
        assert(r.mismatches == head + tail);
        if i < head.len() {
            assert(r.mismatches[i] == head[i]);
        } else {
            assert(r.mismatches[i] == tail[i - head.len()]);
        }
    }
}

/// The number of user transactions in the summary is the number of replayed
/// rows that are not deposits.
pub proof fn lemma_user_count_is_non_deposit_rows(
    block: ReplayBlock,
    config: SdmReplayConfig,
    execution: ReplayExecution,
)
    requires
        block.transactions@.len() <= usize::MAX,
    ensures
        ({
            let r = spec_replay_result(block, config, execution);
            r.summary.tx_count_user as int == r.txs.filter(|t: SdmReplayTxView| !t.is_deposit_tx).len()
        }),
{
    let rows = spec_replay_rows(block, config, execution);
    lemma_kept_indexes(spec_tx_types(block.transactions@));
    lemma_user_sum_is_filter_len(rows);
    rows.lemma_filter_len(|t: SdmReplayTxView| !t.is_deposit_tx);
}

/// The user count of rows is the length of their non-deposit filter.
proof fn lemma_user_sum_is_filter_len(rows: Seq<SdmReplayTxView>)
    ensures
        spec_rows_sum(rows, |r: SdmReplayTxView| spec_row_is_user(r)) == rows.filter(
            |t: SdmReplayTxView| !t.is_deposit_tx,
        ).len(),
    decreases rows.len(),
{
    reveal(Seq::filter);
    if rows.len() > 0 {
        lemma_user_sum_is_filter_len(rows.drop_last());
    }
}

/// Each row reports the type, hash and deposit flag of the block transaction
/// at its original index, which is a transaction of the block that is not of
/// the SDM type, and its position in the replay.
pub proof fn lemma_rows_describe_their_transactions(
    block: ReplayBlock,
    config: SdmReplayConfig,
    execution: ReplayExecution,
)
    requires
        block.transactions@.len() <= usize::MAX,
    ensures
        ({
            let r = spec_replay_result(block, config, execution);
            forall|j: int|
                0 <= j < r.txs.len() ==> {
                    let row = #[trigger] r.txs[j];
                    let tx = block.transactions@[row.tx_index as int];
                    &&& row.tx_index < block.transactions@.len()
                    &&& row.replay_tx_index == j
                    &&& row.tx_type == tx.tx_type
                    &&& row.tx_hash == tx.tx_hash
                    &&& row.is_deposit_tx == tx.is_deposit
                    &&& row.tx_type != SDM_TX_TYPE_ID
                }
        }),
{
    lemma_kept_indexes(spec_tx_types(block.transactions@));
}

/// A refund row keeps the kind of the warming event it comes from, and its amount.
pub proof fn lemma_refund_event_keeps_kind(
    event: WarmingRefundEvent,
    claiming_replay_tx_index: u64,
    original_indexes: Seq<u64>,
)
    ensures
        ({
            let r = spec_refund_event(event, claiming_replay_tx_index, original_indexes);
            &&& event.kind == WarmingRefundKind::WarmAccount ==> r.kind == SdmReplayRefundKind::WarmAccount
            &&& event.kind == WarmingRefundKind::WarmSload ==> r.kind == SdmReplayRefundKind::WarmSload
            &&& event.kind == WarmingRefundKind::WarmSstore ==> r.kind == SdmReplayRefundKind::WarmSstore
            &&& r.amount == event.amount
        }),
{
}

/// The refund breakdown of each replayed row lists the warming events that
/// execution reported for that replay position, one row per event, in order,
/// each with the event's kind and amount.
pub proof fn lemma_breakdown_follows_events(
    block: ReplayBlock,
    config: SdmReplayConfig,
    execution: ReplayExecution,
)
    requires
        block.transactions@.len() <= usize::MAX,
    ensures
        ({
            let r = spec_replay_result(block, config, execution);
            let events = execution.warming_events_by_tx@;
            forall|j: int, k: int|
                0 <= j < r.txs.len() && j < events.len() && 0 <= k < events[j]@.len() ==> {
                    let row = #[trigger] r.txs[j].refund_breakdown[k];
                    let e = events[j]@[k];
                    &&& r.txs[j].refund_breakdown.len() == events[j]@.len()
                    &&& e.kind == WarmingRefundKind::WarmAccount ==> row.kind == SdmReplayRefundKind::WarmAccount
                    &&& e.kind == WarmingRefundKind::WarmSload ==> row.kind == SdmReplayRefundKind::WarmSload
                    &&& e.kind == WarmingRefundKind::WarmSstore ==> row.kind == SdmReplayRefundKind::WarmSstore
                    &&& row.amount == e.amount
                    &&& row.claiming_replay_tx_index == j
                }
        }),
{
    let r = spec_replay_result(block, config, execution);
    let events = execution.warming_events_by_tx@;
    lemma_kept_indexes(spec_tx_types(block.transactions@));
    assert forall|j: int, k: int|
        0 <= j < r.txs.len() && j < events.len() && 0 <= k < events[j]@.len() implies {
            let row = #[trigger] r.txs[j].refund_breakdown[k];
            let e = events[j]@[k];
            &&& r.txs[j].refund_breakdown.len() == events[j]@.len()
            &&& e.kind == WarmingRefundKind::WarmAccount ==> row.kind == SdmReplayRefundKind::WarmAccount
            &&& e.kind == WarmingRefundKind::WarmSload ==> row.kind == SdmReplayRefundKind::WarmSload
            &&& e.kind == WarmingRefundKind::WarmSstore ==> row.kind == SdmReplayRefundKind::WarmSstore
            &&& row.amount == e.amount
            &&& row.claiming_replay_tx_index == j
        } by {
        assert(r.txs[j] == spec_replay_row(block, config, execution, j));
        assert(r.txs[j].refund_breakdown == spec_refund_breakdown(events, j, spec_replay_indexes(block)));
    }
}

/// With payload comparison off, the rows' mismatch rows are receipt comparisons.
proof fn lemma_rows_mismatches_without_payload(
    block_number: u64,
    config: SdmReplayConfig,
    payload_present: bool,
    rows: Seq<SdmReplayTxView>,
    k: int,
)
    requires
        !config.compare_payload,
    ensures
        forall|i: int|
            0 <= i < spec_rows_mismatches(block_number, config, payload_present, rows, k).len()
                ==> #[trigger] spec_rows_mismatches(block_number, config, payload_present, rows, k)[i].category
                == SdmReplayMismatchKind::ReceiptRefundMismatch,
    decreases k,
{
    if k > 0 {
        lemma_rows_mismatches_without_payload(block_number, config, payload_present, rows, k - 1);
    }
}

/// With payload comparison switched off, no replay reports a payload refund
/// mismatch, and a row is flagged exactly when the block carries a payload,
/// receipt comparison is on, and the row's receipt refund (zero when absent)
/// differs from its replay refund.
pub proof fn lemma_payload_not_compared_when_off(
    block: ReplayBlock,
    config: SdmReplayConfig,
    execution: ReplayExecution,
)
    requires
        !config.compare_payload,
    ensures
        ({
            let r = spec_replay_result(block, config, execution);
            &&& forall|i: int|
                0 <= i < r.mismatches.len() ==> #[trigger] r.mismatches[i].category
                    != SdmReplayMismatchKind::PayloadRefundMismatch
            &&& forall|j: int|
                0 <= j < r.txs.len() ==> (#[trigger] r.txs[j].mismatch <==> {
                    &&& config.compare_receipts
                    &&& spec_embedded_payload(block.transactions@) is Some
                    &&& (match r.txs[j].op_gas_refund_receipt {
                        Some(x) => x,
                        None => 0,
                    }) != r.txs[j].op_gas_refund_replay
                })
        }),
{
    let r = spec_replay_result(block, config, execution);
    let rows = spec_replay_rows(block, config, execution);
    let head = spec_payload_mismatches(block);
    let tail = spec_rows_mismatches(block.number, config, spec_payload_present(block), rows, rows.len() as int);
    match spec_embedded_payload(block.transactions@) {
        Some(p) => lemma_payload_scan_categories(block.number, block.transactions@, p.entries),
        None => {},
    }
    lemma_rows_mismatches_without_payload(block.number, config, spec_payload_present(block), rows, rows.len() as int);
    assert forall|i: int| 0 <= i < r.mismatches.len() implies #[trigger] r.mismatches[i].category
        != SdmReplayMismatchKind::PayloadRefundMismatch by {
        assert(r.mismatches == head + tail);
        if i < head.len() {
            assert(r.mismatches[i] == head[i]);
        } else {
            assert(r.mismatches[i] == tail[i - head.len()]);
        }
    }
}

/// Without a payload in the block nothing is compared: no row is flagged, no
/// row has a payload or receipt refund, and the result has no mismatch rows.
pub proof fn lemma_nothing_compared_without_payload(
    block: ReplayBlock,
    config: SdmReplayConfig,
    execution: ReplayExecution,
)
    requires
        spec_embedded_payload(block.transactions@) is None,
    ensures
        ({
            let r = spec_replay_result(block, config, execution);
            &&& r.mismatches.len() == 0
            &&& forall|j: int|
                0 <= j < r.txs.len() ==> !(#[trigger] r.txs[j]).mismatch
                    && r.txs[j].op_gas_refund_payload is None && r.txs[j].op_gas_refund_receipt is None
        }),
{
    let rows = spec_replay_rows(block, config, execution);
    lemma_rows_mismatches_empty(block.number, config, rows, rows.len() as int);
}

/// Rows compared without a payload give no mismatch rows.
proof fn lemma_rows_mismatches_empty(
    block_number: u64,
    config: SdmReplayConfig,
    rows: Seq<SdmReplayTxView>,
    k: int,
)
    ensures
        spec_rows_mismatches(block_number, config, false, rows, k).len() == 0,
    decreases k,
{
    if k > 0 {
        lemma_rows_mismatches_empty(block_number, config, rows, k - 1);
    }
}

} // verus!
