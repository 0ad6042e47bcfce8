//! The wire format of a transaction.
//!
//! All integers are little-endian. A transaction is laid out as
//!
//! ```text
//! version        4 bytes, signed
//! input count    4 bytes
//! each input:    txid (32), vout (4), script length (4), script, sequence (4)
//! output count   4 bytes
//! each output:   value (8), script length (4), script
//! lock time      4 bytes
//! ```
//!
//! The format is stated twice: as the bytes of a value (`transaction_bytes`)
//! and as a reader that walks a buffer (`parse_transaction`). The lemmas of
//! this module prove that the two agree, and from that the laws of the codec:
//! decoding inverts encoding, no buffer decodes to two transactions, and a
//! truncated encoding decodes to nothing.

use vstd::prelude::*;
use crate::little_endian::{
    i32_from_le_bytes,
    i32_le_bytes,
    lemma_i32_le_roundtrip,
    lemma_u32_le_roundtrip,
    lemma_u64_le_roundtrip,
    u32_from_le_bytes,
    u32_le_bytes,
    u64_from_le_bytes,
    u64_le_bytes,
};
use crate::transaction::{OutPointView, TransactionView, TxInputView, TxOutputView};

verus! {

/// Bytes of the fixed fields of a transaction: version, two counts, lock time.
/// No encoding is shorter.
pub const MIN_TRANSACTION_LEN: usize = 16;

// ---------------------------------------------------------------------------
// The bytes of a value
// ---------------------------------------------------------------------------

/// The identifier, then the output index.
pub open spec fn outpoint_bytes(o: OutPointView) -> Seq<u8> {
    o.txid + u32_le_bytes(o.vout)
}

/// The outpoint, the script behind its length, then the sequence number.
pub open spec fn input_bytes(i: TxInputView) -> Seq<u8> {
    outpoint_bytes(i.previous_output) + u32_le_bytes(i.script_sig.len() as u32) + i.script_sig
        + u32_le_bytes(i.sequence)
}

/// The value, then the script behind its length.
pub open spec fn output_bytes(o: TxOutputView) -> Seq<u8> {
    u64_le_bytes(o.value) + u32_le_bytes(o.script_pubkey.len() as u32) + o.script_pubkey
}

/// The inputs one after another, in list order.
pub open spec fn inputs_bytes(inputs: Seq<TxInputView>) -> Seq<u8>
    decreases inputs.len(),
{
    if inputs.len() == 0 {
        Seq::empty()
    } else {
        inputs_bytes(inputs.drop_last()) + input_bytes(inputs.last())
    }
}

/// The outputs one after another, in list order.
pub open spec fn outputs_bytes(outputs: Seq<TxOutputView>) -> Seq<u8>
    decreases outputs.len(),
{
    if outputs.len() == 0 {
        Seq::empty()
    } else {
        outputs_bytes(outputs.drop_last()) + output_bytes(outputs.last())
    }
}

/// The whole transaction.
pub open spec fn transaction_bytes(t: TransactionView) -> Seq<u8> {
    i32_le_bytes(t.version) + u32_le_bytes(t.inputs.len() as u32) + inputs_bytes(t.inputs)
        + u32_le_bytes(t.outputs.len() as u32) + outputs_bytes(t.outputs) + u32_le_bytes(
        t.lock_time,
    )
}

// ---------------------------------------------------------------------------
// What a buffer decodes to
// ---------------------------------------------------------------------------

/// `data` starts with the encoding of the well-formed transaction `t`.
/// Bytes behind the encoding are not looked at.
pub open spec fn encodes_prefix(t: TransactionView, data: Seq<u8>) -> bool {
    t.well_formed() && transaction_bytes(t).is_prefix_of(data)
}

/// The transaction whose encoding `data` starts with, if there is one.
/// There is at most one (`lemma_encoding_unique`).
pub open spec fn decoded(data: Seq<u8>) -> Option<TransactionView> {
    if exists|t: TransactionView| encodes_prefix(t, data) {
        Some(choose|t: TransactionView| encodes_prefix(t, data))
    } else {
        None
    }
}

// ---------------------------------------------------------------------------
// The reader
// ---------------------------------------------------------------------------

/// Reads one input at `pos`: the value and the position behind it, or `None`
/// where the buffer ends before the input does.
pub open spec fn parse_input(data: Seq<u8>, pos: int) -> Option<(TxInputView, int)> {
    if pos + 40 > data.len() {
        None
    } else {
        let len = u32_from_le_bytes(data.subrange(pos + 36, pos + 40));
        if pos + 44 + len > data.len() {
            None
        } else {
            Some(
                (
                    TxInputView {
                        previous_output: OutPointView {
                            txid: data.subrange(pos, pos + 32),
                            vout: u32_from_le_bytes(data.subrange(pos + 32, pos + 36)),
                        },
                        script_sig: data.subrange(pos + 40, pos + 40 + len),
                        sequence: u32_from_le_bytes(
                            data.subrange(pos + 40 + len, pos + 44 + len),
                        ),
                    },
                    pos + 44 + len,
                ),
            )
        }
    }
}

/// Reads one output at `pos`: the value and the position behind it, or `None`
/// where the buffer ends before the output does.
pub open spec fn parse_output(data: Seq<u8>, pos: int) -> Option<(TxOutputView, int)> {
    if pos + 12 > data.len() {
        None
    } else {
        let len = u32_from_le_bytes(data.subrange(pos + 8, pos + 12));
        if pos + 12 + len > data.len() {
            None
        } else {
            Some(
                (
                    TxOutputView {
                        value: u64_from_le_bytes(data.subrange(pos, pos + 8)),
                        script_pubkey: data.subrange(pos + 12, pos + 12 + len),
                    },
                    pos + 12 + len,
                ),
            )
        }
    }
}

/// Reads `n` inputs one after another from `pos` on.
pub open spec fn parse_inputs(data: Seq<u8>, pos: int, n: nat) -> Option<(Seq<TxInputView>, int)>
    decreases n,
{
    if n == 0 {
        Some((Seq::empty(), pos))
    } else {
        match parse_inputs(data, pos, (n - 1) as nat) {
            None => None,
            Some((items, mid)) => match parse_input(data, mid) {
                None => None,
                Some((item, end)) => Some((items.push(item), end)),
            },
        }
    }
}

/// Reads `n` outputs one after another from `pos` on.
pub open spec fn parse_outputs(data: Seq<u8>, pos: int, n: nat) -> Option<
    (Seq<TxOutputView>, int),
>
    decreases n,
{
    if n == 0 {
        Some((Seq::empty(), pos))
    } else {
        match parse_outputs(data, pos, (n - 1) as nat) {
            None => None,
            Some((items, mid)) => match parse_output(data, mid) {
                None => None,
                Some((item, end)) => Some((items.push(item), end)),
            },
        }
    }
}

/// Reads a transaction from the start of `data`, or `None` where the buffer
/// is shorter than the fixed fields or ends before a declared field does.
pub open spec fn parse_transaction(data: Seq<u8>) -> Option<TransactionView> {
    if data.len() < MIN_TRANSACTION_LEN {
        None
    } else {
        let n_in = u32_from_le_bytes(data.subrange(4, 8));
        match parse_inputs(data, 8, n_in as nat) {
            None => None,
            Some((inputs, p)) => if p + 4 > data.len() {
                None
            } else {
                let n_out = u32_from_le_bytes(data.subrange(p, p + 4));
                match parse_outputs(data, p + 4, n_out as nat) {
                    None => None,
                    Some((outputs, q)) => if q + 4 > data.len() {
                        None
                    } else {
                        Some(
                            TransactionView {
                                version: i32_from_le_bytes(data.subrange(0, 4)),
                                inputs,
                                outputs,
                                lock_time: u32_from_le_bytes(data.subrange(q, q + 4)),
                            },
                        )
                    },
                }
            },
        }
    }
}

// ---------------------------------------------------------------------------
// Bytes at a position
// ---------------------------------------------------------------------------

/// `bytes` stands in `data` from `pos` on.
pub open spec fn occurs_at(data: Seq<u8>, pos: int, bytes: Seq<u8>) -> bool {
    &&& 0 <= pos
    &&& pos + bytes.len() <= data.len()
    &&& data.subrange(pos, pos + bytes.len()) == bytes
}

/// A concatenation stands at `pos` exactly when its first part stands there
/// and its second part right behind it.
pub proof fn lemma_occurs_at_concat(data: Seq<u8>, pos: int, a: Seq<u8>, b: Seq<u8>)
    ensures
        occurs_at(data, pos, a + b) <==> occurs_at(data, pos, a) && occurs_at(
            data,
            pos + a.len(),
            b,
        ),
{
    let mid = pos + a.len();
    let end = mid + b.len();
    if occurs_at(data, pos, a + b) {
        let whole = data.subrange(pos, end);
        assert forall|i: int| 0 <= i < a.len() implies data[pos + i] == a[i] by {
            assert(whole[i] == (a + b)[i]);
        }
        assert forall|i: int| 0 <= i < b.len() implies data[mid + i] == b[i] by {
            assert(whole[a.len() + i] == (a + b)[a.len() + i]);
        }
        assert(data.subrange(pos, mid) =~= a);
        assert(data.subrange(mid, end) =~= b);
    }
    if occurs_at(data, pos, a) && occurs_at(data, mid, b) {
        assert forall|i: int| 0 <= i < a.len() + b.len() implies data[pos + i] == (a + b)[i] by {
            if i < a.len() {
                assert(data.subrange(pos, mid)[i] == a[i]);
            } else {
                assert(data.subrange(mid, end)[i - a.len()] == b[i - a.len()]);
            }
        }
        assert(data.subrange(pos, end) =~= a + b);
    }
}

// ---------------------------------------------------------------------------
// The reader and the bytes of a value agree
// ---------------------------------------------------------------------------

/// Where an input is read, the bytes read are those of the input, which is
/// well formed.
pub proof fn lemma_parse_input_sound(data: Seq<u8>, pos: int)
    requires
        0 <= pos,
        parse_input(data, pos) is Some,
    ensures
        ({
            let (item, end) = parse_input(data, pos).unwrap();
            &&& item.well_formed()
            &&& end == pos + input_bytes(item).len()
            &&& occurs_at(data, pos, input_bytes(item))
        }),
{
    let (item, end) = parse_input(data, pos).unwrap();
    let len = u32_from_le_bytes(data.subrange(pos + 36, pos + 40));
    lemma_u32_le_roundtrip(0, data.subrange(pos + 32, pos + 36));
    lemma_u32_le_roundtrip(0, data.subrange(pos + 36, pos + 40));
    lemma_u32_le_roundtrip(0, data.subrange(pos + 40 + len, pos + 44 + len));
    assert(item.script_sig.len() as u32 == len);
    assert(input_bytes(item) =~= data.subrange(pos, end));
}

/// Where the bytes of a well-formed input stand, that input is read.
pub proof fn lemma_parse_input_complete(data: Seq<u8>, pos: int, item: TxInputView)
    requires
        item.well_formed(),
        occurs_at(data, pos, input_bytes(item)),
    ensures
        parse_input(data, pos) == Some((item, pos + input_bytes(item).len())),
{
    let o = item.previous_output;
    let len = item.script_sig.len() as u32;
    let a1 = outpoint_bytes(o);
    let a2 = a1 + u32_le_bytes(len);
    let a3 = a2 + item.script_sig;
    lemma_u32_le_roundtrip(o.vout, Seq::empty());
    lemma_u32_le_roundtrip(len, Seq::empty());
    lemma_u32_le_roundtrip(item.sequence, Seq::empty());
    lemma_occurs_at_concat(data, pos, a3, u32_le_bytes(item.sequence));
    lemma_occurs_at_concat(data, pos, a2, item.script_sig);
    lemma_occurs_at_concat(data, pos, a1, u32_le_bytes(len));
    lemma_occurs_at_concat(data, pos, o.txid, u32_le_bytes(o.vout));
}

/// Where an output is read, the bytes read are those of the output, which is
/// well formed.
pub proof fn lemma_parse_output_sound(data: Seq<u8>, pos: int)
    requires
        0 <= pos,
        parse_output(data, pos) is Some,
    ensures
        ({
            let (item, end) = parse_output(data, pos).unwrap();
            &&& item.well_formed()
            &&& end == pos + output_bytes(item).len()
            &&& occurs_at(data, pos, output_bytes(item))
        }),
{
    let (item, end) = parse_output(data, pos).unwrap();
    let len = u32_from_le_bytes(data.subrange(pos + 8, pos + 12));
    lemma_u64_le_roundtrip(0, data.subrange(pos, pos + 8));
    lemma_u32_le_roundtrip(0, data.subrange(pos + 8, pos + 12));
    assert(item.script_pubkey.len() as u32 == len);
    assert(output_bytes(item) =~= data.subrange(pos, end));
}

/// Where the bytes of a well-formed output stand, that output is read.
pub proof fn lemma_parse_output_complete(data: Seq<u8>, pos: int, item: TxOutputView)
    requires
        item.well_formed(),
        occurs_at(data, pos, output_bytes(item)),
    ensures
        parse_output(data, pos) == Some((item, pos + output_bytes(item).len())),
{
    let len = item.script_pubkey.len() as u32;
    let a1 = u64_le_bytes(item.value);
    let a2 = a1 + u32_le_bytes(len);
    lemma_u64_le_roundtrip(item.value, Seq::empty());
    lemma_u32_le_roundtrip(len, Seq::empty());
    lemma_occurs_at_concat(data, pos, a2, item.script_pubkey);
    lemma_occurs_at_concat(data, pos, a1, u32_le_bytes(len));
}

/// Where `n` inputs are read, they are `n` well-formed inputs and the bytes
/// read are theirs.
pub proof fn lemma_parse_inputs_sound(data: Seq<u8>, pos: int, n: nat)
    requires
        0 <= pos <= data.len(),
        parse_inputs(data, pos, n) is Some,
    ensures
        ({
            let (items, end) = parse_inputs(data, pos, n).unwrap();
            &&& items.len() == n
            &&& forall|i: int| 0 <= i < items.len() ==> (#[trigger] items[i]).well_formed()
            &&& end == pos + inputs_bytes(items).len()
            &&& occurs_at(data, pos, inputs_bytes(items))
        }),
    decreases n,
{
    if n == 0 {
        assert(data.subrange(pos, pos) =~= Seq::<u8>::empty());
    } else {
        lemma_parse_inputs_sound(data, pos, (n - 1) as nat);
        let (init, mid) = parse_inputs(data, pos, (n - 1) as nat).unwrap();
        lemma_parse_input_sound(data, mid);
        let (item, end) = parse_input(data, mid).unwrap();
        let items = init.push(item);
        assert(items.drop_last() =~= init);
        lemma_occurs_at_concat(data, pos, inputs_bytes(init), input_bytes(item));
    }
}

/// Where the bytes of a list of well-formed inputs stand, that list is read.
pub proof fn lemma_parse_inputs_complete(data: Seq<u8>, pos: int, items: Seq<TxInputView>)
    requires
        forall|i: int| 0 <= i < items.len() ==> (#[trigger] items[i]).well_formed(),
        occurs_at(data, pos, inputs_bytes(items)),
    ensures
        parse_inputs(data, pos, items.len()) == Some((items, pos + inputs_bytes(items).len())),
    decreases items.len(),
{
    if items.len() > 0 {
        let init = items.drop_last();
        let last = items.last();
        lemma_occurs_at_concat(data, pos, inputs_bytes(init), input_bytes(last));
        lemma_parse_inputs_complete(data, pos, init);
        lemma_parse_input_complete(data, pos + inputs_bytes(init).len(), last);
        assert(init.push(last) =~= items);
    }
}

/// Where `n` outputs are read, they are `n` well-formed outputs and the bytes
/// read are theirs.
pub proof fn lemma_parse_outputs_sound(data: Seq<u8>, pos: int, n: nat)
    requires
        0 <= pos <= data.len(),
        parse_outputs(data, pos, n) is Some,
    ensures
        ({
            let (items, end) = parse_outputs(data, pos, n).unwrap();
            &&& items.len() == n
            &&& forall|i: int| 0 <= i < items.len() ==> (#[trigger] items[i]).well_formed()
            &&& end == pos + outputs_bytes(items).len()
            &&& occurs_at(data, pos, outputs_bytes(items))
        }),
    decreases n,
{
    if n == 0 {
        assert(data.subrange(pos, pos) =~= Seq::<u8>::empty());
    } else {
        lemma_parse_outputs_sound(data, pos, (n - 1) as nat);
        let (init, mid) = parse_outputs(data, pos, (n - 1) as nat).unwrap();
        lemma_parse_output_sound(data, mid);
        let (item, end) = parse_output(data, mid).unwrap();
        let items = init.push(item);
        assert(items.drop_last() =~= init);
        lemma_occurs_at_concat(data, pos, outputs_bytes(init), output_bytes(item));
    }
}

/// Where the bytes of a list of well-formed outputs stand, that list is read.
pub proof fn lemma_parse_outputs_complete(data: Seq<u8>, pos: int, items: Seq<TxOutputView>)
    requires
        forall|i: int| 0 <= i < items.len() ==> (#[trigger] items[i]).well_formed(),
        occurs_at(data, pos, outputs_bytes(items)),
    ensures
        parse_outputs(data, pos, items.len()) == Some((items, pos + outputs_bytes(items).len())),
    decreases items.len(),
{
    if items.len() > 0 {
        let init = items.drop_last();
        let last = items.last();
        lemma_occurs_at_concat(data, pos, outputs_bytes(init), output_bytes(last));
        lemma_parse_outputs_complete(data, pos, init);
        lemma_parse_output_complete(data, pos + outputs_bytes(init).len(), last);
        assert(init.push(last) =~= items);
    }
}

/// Reading one more input extends the list read so far, and a failure to
/// read it is a failure to read every longer list.
pub proof fn lemma_parse_inputs_step(data: Seq<u8>, pos: int, k: nat, n: nat)
    requires
        k < n,
        parse_inputs(data, pos, k) is Some,
    ensures
        ({
            let (items, mid) = parse_inputs(data, pos, k).unwrap();
            match parse_input(data, mid) {
                Some((item, end)) => parse_inputs(data, pos, k + 1) == Some(
                    (items.push(item), end),
                ),
                None => parse_inputs(data, pos, n) is None,
            }
        }),
{
    let (items, mid) = parse_inputs(data, pos, k).unwrap();
    assert(parse_inputs(data, pos, (k + 1 - 1) as nat) == Some((items, mid)));
    if parse_input(data, mid) is None {
        lemma_parse_inputs_stays_failed(data, pos, k + 1, n);
    }
}

/// Reading one more output extends the list read so far, and a failure to
/// read it is a failure to read every longer list.
pub proof fn lemma_parse_outputs_step(data: Seq<u8>, pos: int, k: nat, n: nat)
    requires
        k < n,
        parse_outputs(data, pos, k) is Some,
    ensures
        ({
            let (items, mid) = parse_outputs(data, pos, k).unwrap();
            match parse_output(data, mid) {
                Some((item, end)) => parse_outputs(data, pos, k + 1) == Some(
                    (items.push(item), end),
                ),
                None => parse_outputs(data, pos, n) is None,
            }
        }),
{
    let (items, mid) = parse_outputs(data, pos, k).unwrap();
    assert(parse_outputs(data, pos, (k + 1 - 1) as nat) == Some((items, mid)));
    if parse_output(data, mid) is None {
        lemma_parse_outputs_stays_failed(data, pos, k + 1, n);
    }
}

/// Once the reader has failed on a list, it fails on every longer one.
pub proof fn lemma_parse_inputs_stays_failed(data: Seq<u8>, pos: int, k: nat, n: nat)
    requires
        k <= n,
        parse_inputs(data, pos, k) is None,
    ensures
        parse_inputs(data, pos, n) is None,
    decreases n,
{
    if k < n {
        lemma_parse_inputs_stays_failed(data, pos, k, (n - 1) as nat);
    }
}

/// Once the reader has failed on a list, it fails on every longer one.
pub proof fn lemma_parse_outputs_stays_failed(data: Seq<u8>, pos: int, k: nat, n: nat)
    requires
        k <= n,
        parse_outputs(data, pos, k) is None,
    ensures
        parse_outputs(data, pos, n) is None,
    decreases n,
{
    if k < n {
        lemma_parse_outputs_stays_failed(data, pos, k, (n - 1) as nat);
    }
}

/// What the reader returns is a well-formed transaction whose encoding the
/// buffer starts with.
pub proof fn lemma_parse_transaction_sound(data: Seq<u8>)
    requires
        parse_transaction(data) is Some,
    ensures
        encodes_prefix(parse_transaction(data).unwrap(), data),
{
    let t = parse_transaction(data).unwrap();
    let n_in = u32_from_le_bytes(data.subrange(4, 8));
    let (inputs, p) = parse_inputs(data, 8, n_in as nat).unwrap();
    let n_out = u32_from_le_bytes(data.subrange(p, p + 4));
    let (outputs, q) = parse_outputs(data, p + 4, n_out as nat).unwrap();
    lemma_parse_inputs_sound(data, 8, n_in as nat);
    lemma_parse_outputs_sound(data, p + 4, n_out as nat);
    lemma_i32_le_roundtrip(0, data.subrange(0, 4));
    lemma_u32_le_roundtrip(0, data.subrange(4, 8));
    lemma_u32_le_roundtrip(0, data.subrange(p, p + 4));
    lemma_u32_le_roundtrip(0, data.subrange(q, q + 4));
    let a1 = i32_le_bytes(t.version);
    let a2 = a1 + u32_le_bytes(t.inputs.len() as u32);
    let a3 = a2 + inputs_bytes(t.inputs);
    let a4 = a3 + u32_le_bytes(t.outputs.len() as u32);
    let a5 = a4 + outputs_bytes(t.outputs);
    lemma_occurs_at_concat(data, 0, a1, u32_le_bytes(t.inputs.len() as u32));
    lemma_occurs_at_concat(data, 0, a2, inputs_bytes(t.inputs));
    lemma_occurs_at_concat(data, 0, a3, u32_le_bytes(t.outputs.len() as u32));
    lemma_occurs_at_concat(data, 0, a4, outputs_bytes(t.outputs));
    lemma_occurs_at_concat(data, 0, a5, u32_le_bytes(t.lock_time));
}

/// Where the buffer starts with the encoding of a well-formed transaction,
/// the reader returns that transaction.
pub proof fn lemma_parse_transaction_complete(data: Seq<u8>, t: TransactionView)
    requires
        encodes_prefix(t, data),
    ensures
        parse_transaction(data) == Some(t),
{
    let n_in = t.inputs.len() as u32;
    let n_out = t.outputs.len() as u32;
    let a1 = i32_le_bytes(t.version);
    let a2 = a1 + u32_le_bytes(n_in);
    let a3 = a2 + inputs_bytes(t.inputs);
    let a4 = a3 + u32_le_bytes(n_out);
    let a5 = a4 + outputs_bytes(t.outputs);
    lemma_i32_le_roundtrip(t.version, Seq::empty());
    lemma_u32_le_roundtrip(n_in, Seq::empty());
    lemma_u32_le_roundtrip(n_out, Seq::empty());
    lemma_u32_le_roundtrip(t.lock_time, Seq::empty());
    assert(occurs_at(data, 0, transaction_bytes(t)));
    lemma_occurs_at_concat(data, 0, a5, u32_le_bytes(t.lock_time));
    lemma_occurs_at_concat(data, 0, a4, outputs_bytes(t.outputs));
    lemma_occurs_at_concat(data, 0, a3, u32_le_bytes(n_out));
    lemma_occurs_at_concat(data, 0, a2, inputs_bytes(t.inputs));
    lemma_occurs_at_concat(data, 0, a1, u32_le_bytes(n_in));
    lemma_parse_inputs_complete(data, 8, t.inputs);
    lemma_parse_outputs_complete(data, (a3.len() + 4) as int, t.outputs);
}

/// What a buffer decodes to is what the reader returns on it.
pub proof fn lemma_decoded_is_parsed(data: Seq<u8>)
    ensures
        decoded(data) == parse_transaction(data),
{
    if parse_transaction(data) is Some {
        lemma_parse_transaction_sound(data);
    }
    if exists|t: TransactionView| encodes_prefix(t, data) {
        let t = choose|t: TransactionView| encodes_prefix(t, data);
        lemma_parse_transaction_complete(data, t);
    }
}

// ---------------------------------------------------------------------------
// Laws of the codec
// ---------------------------------------------------------------------------

/// No buffer starts with the encodings of two different transactions: what a
/// buffer decodes to is determined by its bytes, and two well-formed
/// transactions with the same encoding are the same transaction.
pub proof fn lemma_encoding_unique(a: TransactionView, b: TransactionView, data: Seq<u8>)
    requires
        encodes_prefix(a, data),
        encodes_prefix(b, data),
    ensures
        a == b,
{
    lemma_parse_transaction_complete(data, a);
    lemma_parse_transaction_complete(data, b);
}

/// Decoding inverts encoding: the encoding of a well-formed transaction,
/// with any bytes behind it, decodes to that transaction.
pub proof fn lemma_decode_inverts_encode(t: TransactionView, rest: Seq<u8>)
    requires
        t.well_formed(),
    ensures
        decoded(transaction_bytes(t) + rest) == Some(t),
{
    let data = transaction_bytes(t) + rest;
    assert(data.subrange(0, transaction_bytes(t).len() as int) =~= transaction_bytes(t));
    lemma_parse_transaction_complete(data, t);
    lemma_decoded_is_parsed(data);
}

/// A buffer shorter than the fixed fields of a transaction decodes to
/// nothing.
pub proof fn lemma_short_buffer_rejected(data: Seq<u8>)
    requires
        data.len() < MIN_TRANSACTION_LEN,
    ensures
        decoded(data) is None,
{
    lemma_decoded_is_parsed(data);
}

/// A truncated record is never accepted: the encoding of a well-formed
/// transaction, cut anywhere before its end, decodes to nothing.
pub proof fn lemma_truncated_encoding_rejected(t: TransactionView, keep: int)
    requires
        t.well_formed(),
        0 <= keep < transaction_bytes(t).len(),
    ensures
        decoded(transaction_bytes(t).take(keep)) is None,
{
    let whole = transaction_bytes(t);
    let cut = whole.take(keep);
    if decoded(cut) is Some {
        let u = decoded(cut).unwrap();
        lemma_decoded_is_parsed(cut);
        lemma_parse_transaction_sound(cut);
        let short = transaction_bytes(u);
        assert(short.is_prefix_of(whole)) by {
            assert(short =~= whole.subrange(0, short.len() as int));
        }
        assert(whole.is_prefix_of(whole)) by {
            assert(whole =~= whole.subrange(0, whole.len() as int));
        }
        lemma_encoding_unique(u, t, whole);
    }
}

/// Order is kept and nothing is merged or dropped: the decoded transaction
/// has as many inputs and outputs as the encoded one, and its member at each
/// place is the member that was encoded at that place.
pub proof fn lemma_decode_keeps_order(t: TransactionView, rest: Seq<u8>)
    requires
        t.well_formed(),
    ensures
        decoded(transaction_bytes(t) + rest) is Some,
        ({
            let d = decoded(transaction_bytes(t) + rest).unwrap();
            &&& d.inputs.len() == t.inputs.len()
            &&& d.outputs.len() == t.outputs.len()
            &&& forall|i: int| 0 <= i < t.inputs.len() ==> d.inputs[i] == t.inputs[i]
            &&& forall|i: int| 0 <= i < t.outputs.len() ==> d.outputs[i] == t.outputs[i]
        }),
{
    lemma_decode_inverts_encode(t, rest);
}

/// A declared input that the buffer does not hold in full is an error: where
/// fewer inputs than declared can be read and the next one ends behind the
/// buffer, the buffer decodes to nothing.
pub proof fn lemma_unfinished_inputs_rejected(data: Seq<u8>, k: nat)
    requires
        data.len() >= MIN_TRANSACTION_LEN,
        k < u32_from_le_bytes(data.subrange(4, 8)),
        parse_inputs(data, 8, k) is Some,
        parse_input(data, parse_inputs(data, 8, k).unwrap().1) is None,
    ensures
        decoded(data) is None,
{
    lemma_parse_inputs_step(data, 8, k, u32_from_le_bytes(data.subrange(4, 8)) as nat);
    lemma_decoded_is_parsed(data);
}

/// A declared output that the buffer does not hold in full is an error:
/// where the inputs are read, fewer outputs than declared can be read and
/// the next one ends behind the buffer, the buffer decodes to nothing.
pub proof fn lemma_unfinished_outputs_rejected(data: Seq<u8>, k: nat)
    requires
        data.len() >= MIN_TRANSACTION_LEN,
        parse_inputs(data, 8, u32_from_le_bytes(data.subrange(4, 8)) as nat) is Some,
        ({
            let p = parse_inputs(data, 8, u32_from_le_bytes(data.subrange(4, 8)) as nat).unwrap().1;
            &&& p + 4 <= data.len()
            &&& k < u32_from_le_bytes(data.subrange(p, p + 4))
            &&& parse_outputs(data, p + 4, k) is Some
            &&& parse_output(data, parse_outputs(data, p + 4, k).unwrap().1) is None
        }),
    ensures
        decoded(data) is None,
{
    let p = parse_inputs(data, 8, u32_from_le_bytes(data.subrange(4, 8)) as nat).unwrap().1;
    lemma_parse_outputs_step(data, p + 4, k, u32_from_le_bytes(data.subrange(p, p + 4)) as nat);
    lemma_decoded_is_parsed(data);
}

} // verus!
