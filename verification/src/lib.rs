//! Sequencer-defined metering (SDM) for block-level warming.
//!
//! The SDM transaction is a synthetic transaction of type `0x7D` that a
//! sequencer inserts at position 1 of a block. It carries, per transaction,
//! the gas refund earned from storage and accounts that an earlier
//! transaction of the same block had already warmed. This crate holds the
//! payload types and their RLP codec, the synthetic transaction, and the
//! bookkeeping of a counterfactual replay that recomputes those refunds and
//! compares them with what a block carried.

pub mod rlp;
pub mod payload;
pub mod transaction;
pub mod text;
pub mod replay_types;
pub mod replay;
