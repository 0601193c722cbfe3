//! The SDM payload: per-transaction warming refunds and their RLP codec.
//!
//! An entry is the RLP list `[index, gas_refund]`; a payload is the RLP list
//! `[version, [entry, ...]]`. Decoding reads one item and leaves whatever
//! follows it; decoding an encoded payload gives the payload back.

use vstd::prelude::*;
use crate::rlp::{
    lemma_rlp_header_len, lemma_rlp_u64_len, rlp_decode_header, rlp_decode_u64, rlp_encode_header,
    rlp_encode_u64, rlp_error_from, spec_rlp_header_decoding, rlp_header_length, spec_rlp_u64_decoding,
    rlp_u64_length, spec_rlp_header, spec_rlp_list, spec_rlp_u64, RlpError,
};

verus! {

/// Per-transaction gas refund entry within an [`SDMPayload`].
#[derive(Clone, Copy, Debug, PartialEq, Eq, Structural, Hash, Default)]
pub struct SDMGasEntry {
    /// Transaction index within the block (final position, 0-based).
    pub index: u64,
    /// Gas refund from block-level warming savings.
    pub gas_refund: u64,
}

/// SDM (Sequencer-Defined Metering) payload.
#[derive(Clone, Debug, PartialEq, Eq, Hash, Default)]
pub struct SDMPayload {
    /// Format version (1 = block-level warming).
    pub version: u64,
    /// Per-transaction refund entries.
    pub entries: Vec<SDMGasEntry>,
}

/// The value of an [`SDMPayload`].
#[verifier::ext_equal]
pub struct SDMPayloadView {
    pub version: u64,
    pub entries: Seq<SDMGasEntry>,
}

impl View for SDMPayload {
    type V = SDMPayloadView;

    open spec fn view(&self) -> SDMPayloadView {
        SDMPayloadView { version: self.version, entries: self.entries@ }
    }
}

/// Outcome of decoding one item from a byte sequence: the value and the bytes
/// after it, or an error. `Err(Some(e))` is an error this crate's codec raises
/// itself; `Err(None)` is one that `alloy_rlp` raised while reading an integer
/// or a header.
pub type Decoding<T> = Result<(T, Seq<u8>), Option<RlpError>>;

/// RLP payload of an entry: its index, then its refund.
pub open spec fn spec_gas_entry_payload(e: SDMGasEntry) -> Seq<u8> {
    spec_rlp_u64(e.index) + spec_rlp_u64(e.gas_refund)
}

/// RLP encoding of an entry.
pub open spec fn spec_gas_entry_encoding(e: SDMGasEntry) -> Seq<u8> {
    spec_rlp_list(spec_gas_entry_payload(e))
}

/// The encodings of `entries`, one after the other.
pub open spec fn spec_gas_entries_concat(entries: Seq<SDMGasEntry>) -> Seq<u8>
    decreases entries.len(),
{
    if entries.len() == 0 {
        Seq::empty()
    } else {
        spec_gas_entry_encoding(entries.first()) + spec_gas_entries_concat(entries.drop_first())
    }
}

/// RLP encoding of a list of entries.
pub open spec fn spec_gas_entries_encoding(entries: Seq<SDMGasEntry>) -> Seq<u8> {
    spec_rlp_list(spec_gas_entries_concat(entries))
}

/// RLP encoding of a payload: its version, then the list of its entries.
pub open spec fn spec_payload_encoding(p: SDMPayloadView) -> Seq<u8> {
    spec_rlp_list(spec_rlp_u64(p.version) + spec_gas_entries_encoding(p.entries))
}

/// Decoding of an entry: a list header, the index, the refund, and a payload
/// that ends exactly where the header said.
pub open spec fn spec_gas_entry_decoding(buf: Seq<u8>) -> Decoding<SDMGasEntry> {
    match spec_rlp_header_decoding(buf) {
        None => Err(None),
        Some((h, rest)) => if !h.list {
            Err(Some(RlpError::UnexpectedString))
        } else {
            match spec_rlp_u64_decoding(rest) {
                None => Err(None),
                Some((index, r1)) => match spec_rlp_u64_decoding(r1) {
                    None => Err(None),
                    Some((gas_refund, r2)) => if r2.len() + h.payload_length != rest.len() {
                        Err(Some(RlpError::UnexpectedLength))
                    } else {
                        Ok((SDMGasEntry { index, gas_refund }, r2))
                    },
                },
            }
        },
    }
}

/// Decoding of consecutive entries that fill `payload` exactly.
pub open spec fn spec_gas_entry_items(payload: Seq<u8>) -> Result<Seq<SDMGasEntry>, Option<RlpError>>
    decreases payload.len(),
{
    if payload.len() == 0 {
        Ok(Seq::empty())
    } else {
        match spec_gas_entry_decoding(payload) {
            Err(e) => Err(e),
            Ok((e, rest)) => if rest.len() < payload.len() {
                match spec_gas_entry_items(rest) {
                    Err(x) => Err(x),
                    Ok(es) => Ok(seq![e] + es),
                }
            } else {
                // Not reached: decoding an entry consumes at least its header byte.
                Err(None)
            },
        }
    }
}

/// Decoding of a list of entries: a list header, then entries that fill its payload.
pub open spec fn spec_gas_entries_decoding(buf: Seq<u8>) -> Decoding<Seq<SDMGasEntry>> {
    match spec_rlp_header_decoding(buf) {
        None => Err(None),
        Some((h, rest)) => if !h.list {
            Err(Some(RlpError::UnexpectedString))
        } else {
            match spec_gas_entry_items(rest.take(h.payload_length as int)) {
                Err(e) => Err(e),
                Ok(items) => Ok((items, rest.skip(h.payload_length as int))),
            }
        },
    }
}

/// Decoding of a payload: a list header, the version, the list of entries, and
/// a payload that ends exactly where the header said.
pub open spec fn spec_payload_decoding(buf: Seq<u8>) -> Decoding<SDMPayloadView> {
    match spec_rlp_header_decoding(buf) {
        None => Err(None),
        Some((h, rest)) => if !h.list {
            Err(Some(RlpError::UnexpectedString))
        } else {
            match spec_rlp_u64_decoding(rest) {
                None => Err(None),
                Some((version, r1)) => match spec_gas_entries_decoding(r1) {
                    Err(e) => Err(e),
                    Ok((entries, r2)) => if r2.len() + h.payload_length != rest.len() {
                        Err(Some(RlpError::UnexpectedLength))
                    } else {
                        Ok((SDMPayloadView { version, entries }, r2))
                    },
                },
            }
        },
    }
}

/// The first entry for `index` in `entries`, if any, gives its refund.
pub open spec fn spec_gas_refund_for_idx(entries: Seq<SDMGasEntry>, index: u64) -> Option<u64>
    decreases entries.len(),
{
    if entries.len() == 0 {
        None
    } else if entries[0].index == index {
        Some(entries[0].gas_refund)
    } else {
        spec_gas_refund_for_idx(entries.drop_first(), index)
    }
}

/// An RLP list followed by `tail` is the list header followed by the payload and `tail`.
pub proof fn lemma_rlp_list_split(payload: Seq<u8>, tail: Seq<u8>)
    requires
        (spec_rlp_list(payload) + tail).len() <= usize::MAX,
    ensures
        spec_rlp_list(payload) + tail == spec_rlp_header(true, payload.len() as usize).add(
            payload + tail,
        ),
        payload.len() as usize <= (payload + tail).len(),
{
    assert(spec_rlp_list(payload) + tail =~= spec_rlp_header(true, payload.len() as usize).add(
        payload + tail,
    ));
}

/// Each encoded entry takes at most 19 bytes.
pub proof fn lemma_gas_entry_encoding_len(e: SDMGasEntry)
    ensures
        3 <= spec_gas_entry_encoding(e).len() <= 19,
        spec_gas_entry_encoding(e).len() == 1 + spec_gas_entry_payload(e).len(),
{
    lemma_rlp_u64_len(e.index);
    lemma_rlp_u64_len(e.gas_refund);
    lemma_rlp_header_len(true, spec_gas_entry_payload(e).len() as usize);
}

/// The encodings of `n` entries take at most `19 * n` bytes, and none when `n == 0`.
pub proof fn lemma_gas_entries_concat_len(entries: Seq<SDMGasEntry>)
    ensures
        spec_gas_entries_concat(entries).len() <= 19 * entries.len(),
        spec_gas_entries_concat(entries).len() == 0 <==> entries.len() == 0,
    decreases entries.len(),
{
    if entries.len() > 0 {
        lemma_gas_entries_concat_len(entries.drop_first());
        lemma_gas_entry_encoding_len(entries.first());
    }
}

/// Appending an entry appends its encoding.
pub proof fn lemma_gas_entries_concat_push(entries: Seq<SDMGasEntry>, e: SDMGasEntry)
    ensures
        spec_gas_entries_concat(entries.push(e)) == spec_gas_entries_concat(entries)
            + spec_gas_entry_encoding(e),
    decreases entries.len(),
{
    if entries.len() == 0 {
        assert(entries.push(e).drop_first() =~= Seq::<SDMGasEntry>::empty());
        assert(entries.push(e).first() == e);
        assert(spec_gas_entries_concat(entries.push(e).drop_first()) == Seq::<u8>::empty());
        assert(entries =~= Seq::<SDMGasEntry>::empty());
        assert(spec_gas_entries_concat(entries) == Seq::<u8>::empty());
        assert(spec_gas_entries_concat(entries.push(e)) =~= spec_gas_entry_encoding(e));
    } else {
        lemma_gas_entries_concat_push(entries.drop_first(), e);
        assert(entries.push(e).drop_first() =~= entries.drop_first().push(e));
        assert(spec_gas_entries_concat(entries.push(e)) =~= spec_gas_entries_concat(entries)
            + spec_gas_entry_encoding(e));
    }
}

/// The encoding of `entries` is that of its first `k` entries followed by that of the rest.
pub proof fn lemma_gas_entries_concat_split(entries: Seq<SDMGasEntry>, k: int)
    requires
        0 <= k <= entries.len(),
    ensures
        spec_gas_entries_concat(entries) == spec_gas_entries_concat(entries.take(k))
            + spec_gas_entries_concat(entries.skip(k)),
    decreases k,
{
    if k == 0 {
        assert(entries.take(0) =~= Seq::<SDMGasEntry>::empty());
        assert(entries.skip(0) =~= entries);
        assert(spec_gas_entries_concat(entries) =~= spec_gas_entries_concat(entries.take(k))
            + spec_gas_entries_concat(entries.skip(k)));
    } else {
        let d = entries.drop_first();
        lemma_gas_entries_concat_split(d, k - 1);
        assert(entries.take(k).drop_first() =~= d.take(k - 1));
        assert(entries.take(k).first() == entries.first());
        assert(d.skip(k - 1) =~= entries.skip(k));
        assert(spec_gas_entries_concat(entries) =~= spec_gas_entries_concat(entries.take(k))
            + spec_gas_entries_concat(entries.skip(k)));
    }
}

/// The entries from position `k` on are encoded as entry `k`, then those from `k + 1` on.
pub proof fn lemma_gas_entries_concat_skip(entries: Seq<SDMGasEntry>, k: int)
    requires
        0 <= k < entries.len(),
    ensures
        spec_gas_entries_concat(entries.skip(k)) == spec_gas_entry_encoding(entries[k])
            + spec_gas_entries_concat(entries.skip(k + 1)),
{
    assert(entries.skip(k).drop_first() =~= entries.skip(k + 1));
}

impl SDMGasEntry {
    /// Length of the RLP encoding of the entry.
    pub fn length(&self) -> (len: usize)
        ensures
            len == spec_gas_entry_encoding(*self).len(),
            len <= 19,
    {
        proof {
            lemma_gas_entry_encoding_len(*self);
        }
        let list_len = rlp_u64_length(self.index) + rlp_u64_length(self.gas_refund);
        rlp_header_length(true, list_len) + list_len
    }

    /// Appends the RLP encoding of the entry to `out`.
    pub fn encode(&self, out: &mut Vec<u8>)
        ensures
            final(out)@ == old(out)@ + spec_gas_entry_encoding(*self),
    {
        proof {
            lemma_gas_entry_encoding_len(*self);
        }
        let list_len = rlp_u64_length(self.index) + rlp_u64_length(self.gas_refund);
        rlp_encode_header(true, list_len, out);
        rlp_encode_u64(self.index, out);
        rlp_encode_u64(self.gas_refund, out);
        assert(out@ =~= old(out)@ + spec_gas_entry_encoding(*self));
    }

    /// Decodes an entry from the start of `buf`, returning it and the bytes after it.
    pub fn decode(buf: &[u8]) -> (res: Result<(SDMGasEntry, &[u8]), RlpError>)
        ensures
            match spec_gas_entry_decoding(buf@) {
                Ok((e, rest)) => res is Ok && res->Ok_0.0 == e && res->Ok_0.1@ == rest,
                Err(Some(err)) => res is Err && res->Err_0 == err,
                Err(None) => res is Err,
            },
            res is Ok ==> buf@ == spec_gas_entry_encoding(res->Ok_0.0) + res->Ok_0.1@,
            forall|e: SDMGasEntry, tail: Seq<u8>|
                #![trigger spec_gas_entry_encoding(e).add(tail)]
                buf@ == spec_gas_entry_encoding(e).add(tail) ==> res is Ok && res->Ok_0.0 == e
                    && res->Ok_0.1@ == tail,
    {
        let buf_len = buf.len();
        // Any encoding that `buf` starts with has its list header decoded first.
        assert forall|e: SDMGasEntry, tail: Seq<u8>|
            #![trigger spec_gas_entry_encoding(e).add(tail)]
            buf@ == spec_gas_entry_encoding(e).add(tail) implies spec_rlp_header(
                true,
                spec_gas_entry_payload(e).len() as usize,
            ).add(spec_gas_entry_payload(e) + tail) == buf@ && spec_gas_entry_payload(e).len() as usize
                <= (spec_gas_entry_payload(e) + tail).len() by {
            lemma_gas_entry_encoding_len(e);
            lemma_rlp_list_split(spec_gas_entry_payload(e), tail);
        }
        let (header, rest) = match rlp_decode_header(buf) {
            Ok(x) => x,
            Err(err) => {
                return Err(rlp_error_from(err));
            },
        };
        if !header.list {
            return Err(RlpError::UnexpectedString);
        }
        let remaining = rest.len();
        assert forall|e: SDMGasEntry, tail: Seq<u8>|
            #![trigger spec_gas_entry_encoding(e).add(tail)]
            buf@ == spec_gas_entry_encoding(e).add(tail) implies spec_rlp_u64(e.index).add(
                spec_rlp_u64(e.gas_refund) + tail,
            ) == rest@ && header.payload_length == spec_gas_entry_payload(e).len() by {
            lemma_gas_entry_encoding_len(e);
            lemma_rlp_list_split(spec_gas_entry_payload(e), tail);
            assert(spec_gas_entry_payload(e) + tail =~= spec_rlp_u64(e.index).add(
                spec_rlp_u64(e.gas_refund) + tail,
            ));
        }
        let (index, rest1) = match rlp_decode_u64(rest) {
            Ok(x) => x,
            Err(err) => {
                return Err(rlp_error_from(err));
            },
        };
        assert forall|e: SDMGasEntry, tail: Seq<u8>|
            #![trigger spec_gas_entry_encoding(e).add(tail)]
            buf@ == spec_gas_entry_encoding(e).add(tail) implies spec_rlp_u64(e.gas_refund).add(
                tail,
            ) == rest1@ && index == e.index by {
            assert(rest@ == spec_rlp_u64(e.index).add(spec_rlp_u64(e.gas_refund) + tail));
        }
        let (gas_refund, rest2) = match rlp_decode_u64(rest1) {
            Ok(x) => x,
            Err(err) => {
                return Err(rlp_error_from(err));
            },
        };
        assert forall|e: SDMGasEntry, tail: Seq<u8>|
            #![trigger spec_gas_entry_encoding(e).add(tail)]
            buf@ == spec_gas_entry_encoding(e).add(tail) implies rest2@ == tail && gas_refund
                == e.gas_refund && remaining - rest2.len() == header.payload_length by {
            assert(rest1@ == spec_rlp_u64(e.gas_refund).add(tail));
            assert(rest@ == spec_rlp_u64(e.index).add(spec_rlp_u64(e.gas_refund) + tail));
        }
        if remaining - rest2.len() != header.payload_length {
            return Err(RlpError::UnexpectedLength);
        }
        let entry = SDMGasEntry { index, gas_refund };
        assert(buf@ =~= spec_gas_entry_encoding(entry) + rest2@);
        Ok((entry, rest2))
    }
}

/// Payload length of the RLP list of `entries`: the sum of their encoded lengths.
fn gas_entries_payload_length(entries: &Vec<SDMGasEntry>) -> (len: usize)
    requires
        spec_gas_entries_concat(entries@).len() <= usize::MAX,
    ensures
        len == spec_gas_entries_concat(entries@).len(),
{
    let mut len: usize = 0;
    let mut i: usize = 0;
    while i < entries.len()
        invariant
            i <= entries@.len(),
            spec_gas_entries_concat(entries@).len() <= usize::MAX,
            len == spec_gas_entries_concat(entries@.take(i as int)).len(),
        decreases entries@.len() - i,
    {
        let l = entries[i].length();
        proof {
            lemma_gas_entries_concat_push(entries@.take(i as int), entries@[i as int]);
            assert(entries@.take(i as int).push(entries@[i as int]) =~= entries@.take(i + 1));
            lemma_gas_entries_concat_split(entries@, i + 1);
        }
        len = len + l;
        i = i + 1;
    }
    proof {
        assert(entries@.take(i as int) =~= entries@);
    }
    len
}

/// Length of the RLP list of `entries`.
fn gas_entries_length(entries: &Vec<SDMGasEntry>) -> (len: usize)
    requires
        spec_gas_entries_encoding(entries@).len() <= usize::MAX,
    ensures
        len == spec_gas_entries_encoding(entries@).len(),
{
    let payload_length = gas_entries_payload_length(entries);
    proof {
        lemma_rlp_header_len(true, payload_length);
    }
    payload_length + rlp_header_length(true, payload_length)
}

/// Appends the RLP list of `entries` to `out`.
fn encode_gas_entries(entries: &Vec<SDMGasEntry>, out: &mut Vec<u8>)
    requires
        spec_gas_entries_encoding(entries@).len() <= usize::MAX,
    ensures
        final(out)@ == old(out)@ + spec_gas_entries_encoding(entries@),
{
    let payload_length = gas_entries_payload_length(entries);
    rlp_encode_header(true, payload_length, out);
    let ghost start = out@;
    let mut i: usize = 0;
    while i < entries.len()
        invariant
            i <= entries@.len(),
            out@ == start + spec_gas_entries_concat(entries@.take(i as int)),
        decreases entries@.len() - i,
    {
        entries[i].encode(out);
        proof {
            lemma_gas_entries_concat_push(entries@.take(i as int), entries@[i as int]);
            assert(entries@.take(i as int).push(entries@[i as int]) =~= entries@.take(i + 1));
        }
        i = i + 1;
    }
    proof {
        assert(entries@.take(i as int) =~= entries@);
    }
    assert(out@ =~= old(out)@ + spec_gas_entries_encoding(entries@));
}

/// Decodes an RLP list of entries from the start of `buf`, returning them and the bytes after it.
fn decode_gas_entries(buf: &[u8]) -> (res: Result<(Vec<SDMGasEntry>, &[u8]), RlpError>)
    ensures
        match spec_gas_entries_decoding(buf@) {
            Ok((es, rest)) => res is Ok && res->Ok_0.0@ == es && res->Ok_0.1@ == rest,
            Err(Some(err)) => res is Err && res->Err_0 == err,
            Err(None) => res is Err,
        },
        res is Ok ==> buf@ == spec_gas_entries_encoding(res->Ok_0.0@) + res->Ok_0.1@,
        forall|es: Seq<SDMGasEntry>, tail: Seq<u8>|
            #![trigger spec_gas_entries_encoding(es).add(tail)]
            buf@ == spec_gas_entries_encoding(es).add(tail) ==> res is Ok && res->Ok_0.0@ == es
                && res->Ok_0.1@ == tail,
{
    let buf_len = buf.len();
    assert forall|es: Seq<SDMGasEntry>, tail: Seq<u8>|
        #![trigger spec_gas_entries_encoding(es).add(tail)]
        buf@ == spec_gas_entries_encoding(es).add(tail) implies spec_rlp_header(
            true,
            spec_gas_entries_concat(es).len() as usize,
        ).add(spec_gas_entries_concat(es) + tail) == buf@ && spec_gas_entries_concat(es).len() as usize
            <= (spec_gas_entries_concat(es) + tail).len() by {
        lemma_rlp_list_split(spec_gas_entries_concat(es), tail);
    }
    let (header, rest) = match rlp_decode_header(buf) {
        Ok(x) => x,
        Err(err) => {
            return Err(rlp_error_from(err));
        },
    };
    if !header.list {
        return Err(RlpError::UnexpectedString);
    }
    let whole = &rest[0..header.payload_length];
    let after = &rest[header.payload_length..rest.len()];
    assert(after@ =~= rest@.skip(header.payload_length as int));
    assert(whole@ =~= rest@.take(header.payload_length as int));
    assert forall|es: Seq<SDMGasEntry>, tail: Seq<u8>|
        #![trigger spec_gas_entries_encoding(es).add(tail)]
        buf@ == spec_gas_entries_encoding(es).add(tail) implies whole@ == spec_gas_entries_concat(es)
            && after@ == tail by {
        lemma_rlp_list_split(spec_gas_entries_concat(es), tail);
        assert(rest@ == spec_gas_entries_concat(es) + tail);
        assert(whole@ =~= spec_gas_entries_concat(es));
        assert(after@ =~= tail);
    }
    let mut payload = whole;
    let mut entries: Vec<SDMGasEntry> = Vec::new();
    assert forall|es: Seq<SDMGasEntry>|
        #![trigger spec_gas_entries_concat(es)]
        whole@ == spec_gas_entries_concat(es) implies entries@ == es.take(0)
            && payload@ == spec_gas_entries_concat(es.skip(0)) by {
        assert(es.skip(0) =~= es);
        assert(es.take(0) =~= Seq::<SDMGasEntry>::empty());
    }
    assert(entries@ + spec_gas_entry_items(payload@)->Ok_0 =~= spec_gas_entry_items(payload@)->Ok_0);
    assert(buf@ =~= spec_rlp_header(true, whole@.len() as usize) + whole@ + after@);
    assert(whole@ =~= spec_gas_entries_concat(entries@) + payload@);
    assert(spec_gas_entries_decoding(buf@) == match spec_gas_entry_items(whole@) {
        Err(e) => Err(e),
        Ok(items) => Ok((items, after@)),
    });
    while payload.len() > 0
        invariant
            spec_gas_entries_decoding(buf@) == match spec_gas_entry_items(whole@) {
                Err(e) => Err(e),
                Ok(items) => Ok((items, after@)),
            },
            spec_gas_entry_items(whole@) == match spec_gas_entry_items(payload@) {
                Ok(items) => Ok(entries@ + items),
                Err(e) => Err(e),
            },
            forall|es: Seq<SDMGasEntry>|
                #![trigger spec_gas_entries_concat(es)]
                whole@ == spec_gas_entries_concat(es) ==> {
                    &&& entries@.len() <= es.len()
                    &&& entries@ == es.take(entries@.len() as int)
                    &&& payload@ == spec_gas_entries_concat(es.skip(entries@.len() as int))
                },
            forall|es: Seq<SDMGasEntry>, tail: Seq<u8>|
                #![trigger spec_gas_entries_encoding(es).add(tail)]
                buf@ == spec_gas_entries_encoding(es).add(tail) ==> whole@ == spec_gas_entries_concat(
                    es,
                ) && after@ == tail,
            buf@ == spec_rlp_header(true, whole@.len() as usize) + whole@ + after@,
            whole@ == spec_gas_entries_concat(entries@) + payload@,
        decreases payload@.len(),
    {
        assert forall|es: Seq<SDMGasEntry>|
            #![trigger spec_gas_entries_concat(es)]
            whole@ == spec_gas_entries_concat(es) implies entries@.len() < es.len()
                && payload@ == spec_gas_entry_encoding(es[entries@.len() as int]).add(
                spec_gas_entries_concat(es.skip(entries@.len() as int + 1)),
            ) by {
            let k = entries@.len() as int;
            if k == es.len() {
                assert(es.skip(k) =~= Seq::<SDMGasEntry>::empty());
            }
            lemma_gas_entries_concat_skip(es, k);
        }
        let (e, r) = match SDMGasEntry::decode(payload) {
            Ok(x) => x,
            Err(err) => {
                return Err(err);
            },
        };
        proof {
            assert forall|es: Seq<SDMGasEntry>|
                #![trigger spec_gas_entries_concat(es)]
                whole@ == spec_gas_entries_concat(es) implies {
                &&& entries@.push(e).len() <= es.len()
                &&& entries@.push(e) == es.take(entries@.push(e).len() as int)
                &&& r@ == spec_gas_entries_concat(es.skip(entries@.push(e).len() as int))
            } by {
                let k = entries@.len() as int;
                assert(payload@ == spec_gas_entry_encoding(es[k]).add(
                    spec_gas_entries_concat(es.skip(k + 1)),
                ));
                assert(entries@.push(e) =~= es.take(k + 1));
            }
            lemma_gas_entry_encoding_len(e);
            lemma_gas_entries_concat_push(entries@, e);
            assert(whole@ =~= spec_gas_entries_concat(entries@.push(e)) + r@);
            assert(payload@.len() > 0);
            assert(seq![e] + spec_gas_entry_items(r@)->Ok_0 =~= seq![e] + spec_gas_entry_items(r@)->Ok_0);
            assert(spec_gas_entry_items(payload@) == match spec_gas_entry_items(r@) {
                Err(x) => Err(x),
                Ok(es) => Ok(seq![e] + es),
            });
            if spec_gas_entry_items(r@) is Ok {
                assert(entries@ + (seq![e] + spec_gas_entry_items(r@)->Ok_0) =~= entries@.push(e)
                    + spec_gas_entry_items(r@)->Ok_0);
            }
        }
        entries.push(e);
        payload = r;
    }
    proof {
        assert(entries@ + Seq::<SDMGasEntry>::empty() =~= entries@);
        assert(whole@ =~= spec_gas_entries_concat(entries@));
        assert forall|es: Seq<SDMGasEntry>, tail: Seq<u8>|
            #![trigger spec_gas_entries_encoding(es).add(tail)]
            buf@ == spec_gas_entries_encoding(es).add(tail) implies entries@ == es && after@
                == tail by {
            assert(whole@ == spec_gas_entries_concat(es));
            lemma_gas_entries_concat_len(es.skip(entries@.len() as int));
            assert(entries@ =~= es);
        }
    }
    Ok((entries, after))
}

impl SDMPayload {
    /// Whether the length of the payload's encoding fits in a `usize`.
    pub open spec fn encoding_fits(&self) -> bool {
        spec_payload_encoding(self@).len() <= usize::MAX
    }

    /// A copy of the payload.
    pub fn copied(&self) -> (copy: SDMPayload)
        ensures
            copy@ == self@,
    {
        let entries = self.entries.clone();
        assert(entries@ =~= self.entries@);
        SDMPayload { version: self.version, entries }
    }

    /// Look up refund for a given tx index: the refund of the first entry with that index.
    pub fn gas_refund_for_idx(&self, index: u64) -> (res: Option<u64>)
        ensures
            res == spec_gas_refund_for_idx(self.entries@, index),
    {
        let mut i: usize = 0;
        assert(self.entries@.skip(0) =~= self.entries@);
        while i < self.entries.len()
            invariant
                i <= self.entries@.len(),
                spec_gas_refund_for_idx(self.entries@, index) == spec_gas_refund_for_idx(
                    self.entries@.skip(i as int),
                    index,
                ),
            decreases self.entries@.len() - i,
        {
            assert(self.entries@.skip(i as int).drop_first() =~= self.entries@.skip(i + 1));
            if self.entries[i].index == index {
                return Some(self.entries[i].gas_refund);
            }
            i = i + 1;
        }
        None
    }

    /// Length of the RLP encoding of the payload.
    pub fn length(&self) -> (len: usize)
        requires
            self.encoding_fits(),
        ensures
            len == spec_payload_encoding(self@).len(),
    {
        proof {
            lemma_rlp_u64_len(self.version);
        }
        let list_len = rlp_u64_length(self.version) + gas_entries_length(&self.entries);
        proof {
            lemma_rlp_header_len(true, list_len);
        }
        rlp_header_length(true, list_len) + list_len
    }

    /// Appends the RLP encoding of the payload to `out`.
    pub fn encode(&self, out: &mut Vec<u8>)
        requires
            self.encoding_fits(),
        ensures
            final(out)@ == old(out)@ + spec_payload_encoding(self@),
    {
        proof {
            lemma_rlp_u64_len(self.version);
        }
        let list_len = rlp_u64_length(self.version) + gas_entries_length(&self.entries);
        rlp_encode_header(true, list_len, out);
        rlp_encode_u64(self.version, out);
        encode_gas_entries(&self.entries, out);
        assert(out@ =~= old(out)@ + spec_payload_encoding(self@));
    }

    /// Decodes a payload from the start of `buf`, returning it and the bytes after it.
    #[verifier::rlimit(40)]
    pub fn decode(buf: &[u8]) -> (res: Result<(SDMPayload, &[u8]), RlpError>)
        ensures
            match spec_payload_decoding(buf@) {
                Ok((p, rest)) => res is Ok && res->Ok_0.0@ == p && res->Ok_0.1@ == rest,
                Err(Some(err)) => res is Err && res->Err_0 == err,
                Err(None) => res is Err,
            },
            res is Ok ==> buf@ == spec_payload_encoding(res->Ok_0.0@) + res->Ok_0.1@,
            forall|p: SDMPayloadView, tail: Seq<u8>|
                #![trigger spec_payload_encoding(p).add(tail)]
                buf@ == spec_payload_encoding(p).add(tail) ==> res is Ok && res->Ok_0.0@ == p
                    && res->Ok_0.1@ == tail,
    {
        let buf_len = buf.len();
        assert forall|p: SDMPayloadView, tail: Seq<u8>|
            #![trigger spec_payload_encoding(p).add(tail)]
            buf@ == spec_payload_encoding(p).add(tail) implies spec_rlp_header(
                true,
                (spec_rlp_u64(p.version) + spec_gas_entries_encoding(p.entries)).len() as usize,
            ).add((spec_rlp_u64(p.version) + spec_gas_entries_encoding(p.entries)) + tail) == buf@
                && (spec_rlp_u64(p.version) + spec_gas_entries_encoding(p.entries)).len() as usize
                <= ((spec_rlp_u64(p.version) + spec_gas_entries_encoding(p.entries)) + tail).len() by {
            lemma_rlp_list_split(spec_rlp_u64(p.version) + spec_gas_entries_encoding(p.entries), tail);
        }
        let (header, rest) = match rlp_decode_header(buf) {
            Ok(x) => x,
            Err(err) => {
                return Err(rlp_error_from(err));
            },
        };
        if !header.list {
            return Err(RlpError::UnexpectedString);
        }
        let remaining = rest.len();
        assert forall|p: SDMPayloadView, tail: Seq<u8>|
            #![trigger spec_payload_encoding(p).add(tail)]
            buf@ == spec_payload_encoding(p).add(tail) implies spec_rlp_u64(p.version).add(
                spec_gas_entries_encoding(p.entries) + tail,
            ) == rest@ && header.payload_length == (spec_rlp_u64(p.version)
                + spec_gas_entries_encoding(p.entries)).len() by {
            lemma_rlp_list_split(spec_rlp_u64(p.version) + spec_gas_entries_encoding(p.entries), tail);
            assert((spec_rlp_u64(p.version) + spec_gas_entries_encoding(p.entries)) + tail
                =~= spec_rlp_u64(p.version).add(spec_gas_entries_encoding(p.entries) + tail));
        }
        let (version, rest1) = match rlp_decode_u64(rest) {
            Ok(x) => x,
            Err(err) => {
                return Err(rlp_error_from(err));
            },
        };
        assert forall|p: SDMPayloadView, tail: Seq<u8>|
            #![trigger spec_payload_encoding(p).add(tail)]
            buf@ == spec_payload_encoding(p).add(tail) implies spec_gas_entries_encoding(p.entries).add(
                tail,
            ) == rest1@ && version == p.version by {
            assert(rest@ == spec_rlp_u64(p.version).add(spec_gas_entries_encoding(p.entries) + tail));
        }
        let (entries, rest2) = match decode_gas_entries(rest1) {
            Ok(x) => x,
            Err(err) => {
                return Err(err);
            },
        };
        assert forall|p: SDMPayloadView, tail: Seq<u8>|
            #![trigger spec_payload_encoding(p).add(tail)]
            buf@ == spec_payload_encoding(p).add(tail) implies rest2@ == tail && entries@
                == p.entries && remaining - rest2.len() == header.payload_length by {
            assert(rest1@ == spec_gas_entries_encoding(p.entries).add(tail));
            assert(rest@ == spec_rlp_u64(p.version).add(spec_gas_entries_encoding(p.entries) + tail));
        }
        if remaining - rest2.len() != header.payload_length {
            return Err(RlpError::UnexpectedLength);
        }
        let payload = SDMPayload { version, entries };
        proof {
            let inner = spec_rlp_u64(version) + spec_gas_entries_encoding(entries@);
            assert(rest@ =~= inner + rest2@);
            assert(header.payload_length == inner.len());
            assert(buf@ == spec_rlp_header(true, header.payload_length) + rest@);
            assert(buf@ =~= spec_payload_encoding(payload@) + rest2@);
        }
        Ok((payload, rest2))
    }

    /// RLP-encode the payload into bytes.
    pub fn to_rlp_bytes(&self) -> (bytes: Vec<u8>)
        requires
            self.encoding_fits(),
        ensures
            bytes@ == spec_payload_encoding(self@),
    {
        let mut buf = Vec::new();
        self.encode(&mut buf);
        assert(buf@ =~= spec_payload_encoding(self@));
        buf
    }

    /// Decode an SDM payload from RLP bytes; bytes after the payload are ignored.
    /// Whatever bytes follow an encoded payload, it is decoded back.
    pub fn from_rlp_bytes(data: &[u8]) -> (res: Option<SDMPayload>)
        ensures
            match spec_payload_decoding(data@) {
                Ok((p, _)) => res is Some && res->Some_0@ == p,
                Err(_) => res is None,
            },
            res is Some ==> spec_payload_encoding(res->Some_0@).is_prefix_of(data@),
            forall|p: SDMPayloadView, tail: Seq<u8>|
                #![trigger spec_payload_encoding(p).add(tail)]
                data@ == spec_payload_encoding(p).add(tail) ==> res is Some && res->Some_0@ == p,
    {
        match SDMPayload::decode(data) {
            Ok((payload, rest)) => {
                assert(spec_payload_encoding(payload@) =~= data@.take(
                    spec_payload_encoding(payload@).len() as int,
                ));
                Some(payload)
            },
            Err(_) => None,
        }
    }
}

} // verus!
