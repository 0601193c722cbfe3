# op_sdm

Sequencer-defined metering (SDM) for block-level warming on OP Stack chains,
as a Verus-verified library.

- `src/rlp.rs`: the RLP encodings of integers and headers, stated exactly, and
  the calls into `alloy_rlp` that encode and decode them.
- `src/payload.rs`: `SDMGasEntry` and `SDMPayload` with their RLP codec;
  decoding an encoding gives it back, and whatever decodes is canonical.
- `src/transaction.rs`: the synthetic transaction of type `0x7D` that carries a
  payload: its encodings, hash, decoding and serialized fields.
- `src/replay_types.rs`, `src/replay.rs`: counterfactual replay of a block —
  stripping the SDM transaction, checking the embedded payload, and the rows,
  mismatches and summary that compare replay refunds with the payload.
- `src/text.rs`: messages that name a transaction index.
- `app/`: the alloy trait impls, serde forms and JSONL writer around the library.
