//! Requests, configuration and results of a counterfactual SDM replay.

use vstd::prelude::*;

verus! {

/// A block number or a block tag.
#[derive(Clone, Copy, Debug, PartialEq, Eq, Structural)]
pub enum BlockNumberOrTag {
    /// The most recent block.
    Latest,
    /// The most recent finalized block.
    Finalized,
    /// The most recent safe block.
    Safe,
    /// The genesis block.
    Earliest,
    /// The pending block.
    Pending,
    /// A block by number.
    Number(u64),
}

/// A block hash or a block number, naming a block that was not found.
#[derive(Clone, Copy, Debug, PartialEq, Eq)]
pub enum BlockHashOrNumber {
    /// A block hash.
    Hash([u8; 32]),
    /// A block number.
    Number(u64),
}

/// Single-block replay request, accepting either a block tag/number or a block hash.
#[derive(Clone, Copy, Debug, PartialEq, Eq)]
pub enum ReplaySdmBlockRequest {
    /// A block number or tag like `latest`.
    Number(BlockNumberOrTag),
    /// A block hash.
    Hash([u8; 32]),
}

impl ReplaySdmBlockRequest {
    /// The block reported as not found when the request names no known block:
    /// the hash for a hash request, and block number 0 for a number or tag request.
    pub fn missing_block_id(&self) -> (id: BlockHashOrNumber)
        ensures
            id == match *self {
                ReplaySdmBlockRequest::Hash(hash) => BlockHashOrNumber::Hash(hash),
                ReplaySdmBlockRequest::Number(_) => BlockHashOrNumber::Number(0),
            },
    {
        match self {
            ReplaySdmBlockRequest::Hash(hash) => BlockHashOrNumber::Hash(*hash),
            ReplaySdmBlockRequest::Number(_) => BlockHashOrNumber::Number(0),
        }
    }
}

/// Options for `debug_replaySdmBlock`.
#[derive(Clone, Copy, Debug, PartialEq, Eq, Structural)]
pub struct ReplaySdmBlockOptions {
    /// Compare replay refunds against any embedded SDM payload in the source block.
    pub compare_payload: bool,
    /// Compare replay refunds against the receipt-level `opGasRefund` projection.
    pub compare_receipts: bool,
}

impl Default for ReplaySdmBlockOptions {
    fn default() -> (options: Self)
        ensures
            options == (ReplaySdmBlockOptions { compare_payload: true, compare_receipts: true }),
    {
        Self { compare_payload: true, compare_receipts: true }
    }
}

/// SDM replay mode.
#[derive(Clone, Copy, Debug, PartialEq, Eq, Structural)]
pub enum SdmMode {
    /// Run block execution without SDM.
    Disabled,
    /// Re-execute a historical block as if SDM had been enabled.
    CounterfactualEnabled,
    /// Re-execute while also validating against an already-existing SDM payload.
    Verifier,
}

impl Default for SdmMode {
    fn default() -> (mode: Self)
        ensures
            mode == SdmMode::CounterfactualEnabled,
    {
        SdmMode::CounterfactualEnabled
    }
}

/// Replay configuration.
#[derive(Clone, Copy, Debug, PartialEq, Eq, Structural)]
pub struct SdmReplayConfig {
    /// Replay mode.
    pub mode: SdmMode,
    /// Compare replay refunds against an embedded payload when present.
    pub compare_payload: bool,
    /// Compare replay refunds against receipt-level `opGasRefund` projection when present.
    pub compare_receipts: bool,
}

impl Default for SdmReplayConfig {
    fn default() -> (config: Self)
        ensures
            config == (SdmReplayConfig {
                mode: SdmMode::CounterfactualEnabled,
                compare_payload: true,
                compare_receipts: true,
            }),
    {
        Self { mode: SdmMode::CounterfactualEnabled, compare_payload: true, compare_receipts: true }
    }
}

impl SdmReplayConfig {
    /// The configuration of a `debug_replaySdmBlock` call: the default mode, and
    /// the comparisons that the options ask for (both when no options are given).
    pub fn from_options(options: Option<ReplaySdmBlockOptions>) -> (config: SdmReplayConfig)
        ensures
            config.mode == SdmMode::CounterfactualEnabled,
            config.compare_payload == match options {
                Some(o) => o.compare_payload,
                None => true,
            },
            config.compare_receipts == match options {
                Some(o) => o.compare_receipts,
                None => true,
            },
    {
        let options = match options {
            Some(o) => o,
            None => ReplaySdmBlockOptions::default(),
        };
        let defaults = SdmReplayConfig::default();
        SdmReplayConfig {
            mode: defaults.mode,
            compare_payload: options.compare_payload,
            compare_receipts: options.compare_receipts,
        }
    }
}

/// Kind of warming that earned a refund.
#[derive(Clone, Copy, Debug, PartialEq, Eq, Structural)]
pub enum SdmReplayRefundKind {
    /// An account was already warm.
    WarmAccount,
    /// A storage slot read was already warm.
    WarmSload,
    /// A storage slot write was already warm.
    WarmSstore,
}

/// One refund attributed to a replayed transaction.
#[derive(Clone, Copy, Debug, PartialEq, Eq)]
pub struct SdmReplayRefundEvent {
    /// Replay-local index of the transaction that claims the refund.
    pub claiming_replay_tx_index: u64,
    /// Original index of the transaction that claims the refund.
    pub claiming_tx_index: u64,
    /// Kind of warming.
    pub kind: SdmReplayRefundKind,
    /// Refunded gas.
    pub amount: u64,
    /// Warmed account.
    pub address: [u8; 20],
    /// Warmed storage slot, if any.
    pub slot: Option<[u8; 32]>,
    /// Replay-local index of the transaction that first warmed the item.
    pub first_warmed_by_replay_tx_index: u64,
    /// Original index of the transaction that first warmed the item.
    pub first_warmed_by_tx_index: u64,
}

/// Per-transaction replay row.
#[derive(Clone, Debug, PartialEq, Eq)]
pub struct SdmReplayTx {
    /// Original transaction index in the source block.
    pub tx_index: u64,
    /// Replay-local transaction index after stripping any SDM tx.
    pub replay_tx_index: u64,
    /// Transaction hash.
    pub tx_hash: [u8; 32],
    /// Raw transaction type byte.
    pub tx_type: u8,
    /// Whether this is a deposit transaction.
    pub is_deposit_tx: bool,
    /// Gas used by the transaction during replay.
    pub gas_used: u64,
    /// Counterfactual SDM refund from replay.
    pub op_gas_refund_replay: u64,
    /// Refund projected from the source block's SDM payload.
    pub op_gas_refund_payload: Option<u64>,
    /// Refund projected into receipts (`opGasRefund`).
    pub op_gas_refund_receipt: Option<u64>,
    /// Gas used minus the replay refund.
    pub effective_gas: u64,
    /// Refunds attributed to this transaction during replay.
    pub refund_breakdown: Vec<SdmReplayRefundEvent>,
    /// Whether any mismatch affected this row.
    pub mismatch: bool,
}

/// The value of an [`SdmReplayTx`].
#[verifier::ext_equal]
pub struct SdmReplayTxView {
    pub tx_index: u64,
    pub replay_tx_index: u64,
    pub tx_hash: [u8; 32],
    pub tx_type: u8,
    pub is_deposit_tx: bool,
    pub gas_used: u64,
    pub op_gas_refund_replay: u64,
    pub op_gas_refund_payload: Option<u64>,
    pub op_gas_refund_receipt: Option<u64>,
    pub effective_gas: u64,
    pub refund_breakdown: Seq<SdmReplayRefundEvent>,
    pub mismatch: bool,
}

impl View for SdmReplayTx {
    type V = SdmReplayTxView;

    open spec fn view(&self) -> SdmReplayTxView {
        SdmReplayTxView {
            tx_index: self.tx_index,
            replay_tx_index: self.replay_tx_index,
            tx_hash: self.tx_hash,
            tx_type: self.tx_type,
            is_deposit_tx: self.is_deposit_tx,
            gas_used: self.gas_used,
            op_gas_refund_replay: self.op_gas_refund_replay,
            op_gas_refund_payload: self.op_gas_refund_payload,
            op_gas_refund_receipt: self.op_gas_refund_receipt,
            effective_gas: self.effective_gas,
            refund_breakdown: self.refund_breakdown@,
            mismatch: self.mismatch,
        }
    }
}

/// Replay mismatch category.
#[derive(Clone, Copy, Debug, PartialEq, Eq, Structural)]
pub enum SdmReplayMismatchKind {
    /// The source block contained duplicate payload indexes.
    DuplicatePayloadIndex,
    /// The source block payload referenced an out-of-range index.
    PayloadIndexOutOfRange,
    /// The source payload referenced a deposit tx.
    PayloadTargetsDeposit,
    /// The source payload referenced the SDM tx itself.
    PayloadTargetsSdm,
    /// Replay refund disagreed with the embedded payload.
    PayloadRefundMismatch,
    /// Replay refund disagreed with the projected receipt refund.
    ReceiptRefundMismatch,
    /// Replay mode is not implemented yet.
    UnsupportedMode,
}

/// Replay mismatch row.
#[derive(Clone, Debug, PartialEq, Eq)]
pub struct SdmReplayMismatch {
    /// Category.
    pub category: SdmReplayMismatchKind,
    /// Block number.
    pub block_num: u64,
    /// Transaction index, if applicable.
    pub tx_index: Option<u64>,
    /// Expected value.
    pub expected: Option<u64>,
    /// Actual value.
    pub actual: Option<u64>,
    /// Human-readable explanation.
    pub message: String,
}

/// The value of an [`SdmReplayMismatch`].
#[verifier::ext_equal]
pub struct SdmReplayMismatchView {
    pub category: SdmReplayMismatchKind,
    pub block_num: u64,
    pub tx_index: Option<u64>,
    pub expected: Option<u64>,
    pub actual: Option<u64>,
    pub message: Seq<char>,
}

impl View for SdmReplayMismatch {
    type V = SdmReplayMismatchView;

    open spec fn view(&self) -> SdmReplayMismatchView {
        SdmReplayMismatchView {
            category: self.category,
            block_num: self.block_num,
            tx_index: self.tx_index,
            expected: self.expected,
            actual: self.actual,
            message: self.message@,
        }
    }
}

/// The values of a sequence of mismatch rows.
pub open spec fn mismatch_views(rows: Seq<SdmReplayMismatch>) -> Seq<SdmReplayMismatchView> {
    rows.map_values(|m: SdmReplayMismatch| m@)
}

/// The values of a sequence of transaction rows.
pub open spec fn tx_views(rows: Seq<SdmReplayTx>) -> Seq<SdmReplayTxView> {
    rows.map_values(|t: SdmReplayTx| t@)
}

/// Block-level summary.
#[derive(Clone, Copy, Debug, PartialEq, Eq)]
pub struct SdmReplaySummary {
    /// Block number.
    pub block_num: u64,
    /// Block hash.
    pub block_hash: [u8; 32],
    /// Number of transactions replayed after stripping the SDM tx.
    pub tx_count_total: usize,
    /// Number of non-deposit transactions replayed.
    pub tx_count_user: usize,
    /// Whether the original block contained an SDM tx.
    pub sdm_tx_present: bool,
    /// Number of replay refund entries.
    pub sdm_payload_entry_count: usize,
    /// Total block gas used across replayed transactions.
    pub block_gas_used: u64,
    /// Total counterfactual replay refund.
    pub replay_refund_total: u64,
    /// Total embedded-payload refund.
    pub payload_refund_total: u64,
    /// Total projected receipt refund.
    pub node_receipt_refund_total: u64,
    /// Effective gas after replay refunds.
    pub block_effective_gas: u64,
    /// Total mismatches.
    pub mismatch_count: usize,
    /// Replay mode.
    pub replay_mode: SdmMode,
}

/// Serializable replay payload entry.
#[derive(Clone, Copy, Debug, PartialEq, Eq, Structural)]
pub struct SdmReplayPayloadEntry {
    /// Original transaction index.
    pub index: u64,
    /// Gas refund.
    pub gas_refund: u64,
}

/// Serializable replay payload.
#[derive(Clone, Debug, PartialEq, Eq)]
pub struct SdmReplayPayload {
    /// Payload format version.
    pub version: u64,
    /// Payload entries.
    pub entries: Vec<SdmReplayPayloadEntry>,
}

/// The value of an [`SdmReplayPayload`].
#[verifier::ext_equal]
pub struct SdmReplayPayloadView {
    pub version: u64,
    pub entries: Seq<SdmReplayPayloadEntry>,
}

impl View for SdmReplayPayload {
    type V = SdmReplayPayloadView;

    open spec fn view(&self) -> SdmReplayPayloadView {
        SdmReplayPayloadView { version: self.version, entries: self.entries@ }
    }
}

/// Single-block replay response.
#[derive(Clone, Debug, PartialEq, Eq)]
pub struct SdmReplayBlock {
    /// Replay config used for the block.
    pub config: SdmReplayConfig,
    /// Block number.
    pub block_num: u64,
    /// Block hash.
    pub block_hash: [u8; 32],
    /// Parent hash.
    pub parent_hash: [u8; 32],
    /// Whether the original block contained an SDM tx.
    pub sdm_tx_present: bool,
    /// Original SDM tx index, if present.
    pub sdm_tx_index: Option<u64>,
    /// Embedded payload from the original block, if present.
    pub embedded_payload: Option<SdmReplayPayload>,
    /// Replay-synthesized payload.
    pub synthesized_payload: SdmReplayPayload,
    /// RLP bytes for the replay-synthesized payload.
    pub synthesized_payload_bytes: Vec<u8>,
    /// Per-transaction replay rows.
    pub txs: Vec<SdmReplayTx>,
    /// Mismatch rows.
    pub mismatches: Vec<SdmReplayMismatch>,
    /// Block summary.
    pub summary: SdmReplaySummary,
}

/// The value of an [`SdmReplayBlock`].
#[verifier::ext_equal]
pub struct SdmReplayBlockView {
    pub config: SdmReplayConfig,
    pub block_num: u64,
    pub block_hash: [u8; 32],
    pub parent_hash: [u8; 32],
    pub sdm_tx_present: bool,
    pub sdm_tx_index: Option<u64>,
    pub embedded_payload: Option<SdmReplayPayloadView>,
    pub synthesized_payload: SdmReplayPayloadView,
    pub synthesized_payload_bytes: Seq<u8>,
    pub txs: Seq<SdmReplayTxView>,
    pub mismatches: Seq<SdmReplayMismatchView>,
    pub summary: SdmReplaySummary,
}

impl View for SdmReplayBlock {
    type V = SdmReplayBlockView;

    open spec fn view(&self) -> SdmReplayBlockView {
        SdmReplayBlockView {
            config: self.config,
            block_num: self.block_num,
            block_hash: self.block_hash,
            parent_hash: self.parent_hash,
            sdm_tx_present: self.sdm_tx_present,
            sdm_tx_index: self.sdm_tx_index,
            embedded_payload: match self.embedded_payload {
                Some(p) => Some(p@),
                None => None,
            },
            synthesized_payload: self.synthesized_payload@,
            synthesized_payload_bytes: self.synthesized_payload_bytes@,
            txs: tx_views(self.txs@),
            mismatches: mismatch_views(self.mismatches@),
            summary: self.summary,
        }
    }
}

/// Run-level configuration for JSONL output.
#[derive(Clone, Copy, Debug, PartialEq, Eq)]
pub struct SdmReplayRunConfig {
    /// Record discriminator.
    pub record_type: &'static str,
    /// First replayed block.
    pub from_block: u64,
    /// Last replayed block.
    pub to_block: u64,
    /// Replay mode.
    pub replay_mode: SdmMode,
    /// Whether payload comparisons were enabled.
    pub compare_payload: bool,
    /// Whether receipt comparisons were enabled.
    pub compare_receipts: bool,
}

} // verus!
