//! Encoding: from a transaction to its bytes on the wire.

use vstd::prelude::*;
use crate::little_endian::{put_i32_le, put_u32_le, put_u64_le};
use crate::transaction::{LegacyTransaction, TxInput, TxOutput};
use crate::wire::{input_bytes, inputs_bytes, output_bytes, outputs_bytes, transaction_bytes};

verus! {

/// A value with an encoding on the wire.
pub trait BitcoinSerialize {
    /// Whether the value can be encoded: every length fits the prefix that
    /// the format gives it.
    spec fn serializable(&self) -> bool;

    /// The encoding of the value. It depends on what the value holds and on
    /// nothing else.
    spec fn wire_bytes(&self) -> Seq<u8>;

    /// Encodes the value.
    fn serialize(&self) -> (bytes: Vec<u8>)
        requires
            self.serializable(),
        ensures
            bytes@ == self.wire_bytes(),
    ;
}

/// Appends `bytes` to `out`.
fn put_bytes(out: &mut Vec<u8>, bytes: &[u8])
    ensures
        final(out)@ == old(out)@ + bytes@,
{
    let mut i: usize = 0;
    while i < bytes.len()
        invariant
            i <= bytes.len(),
            out@ == old(out)@ + bytes@.take(i as int),
        decreases bytes.len() - i,
    {
        out.push(bytes[i]);
        assert(bytes@.take(i + 1) =~= bytes@.take(i as int).push(bytes@[i as int]));
        assert(out@ =~= old(out)@ + bytes@.take(i + 1));
        i += 1;
    }
    assert(bytes@.take(i as int) =~= bytes@);
}

/// Appends the encoding of `input` to `out`.
fn put_input(out: &mut Vec<u8>, input: &TxInput)
    requires
        input@.well_formed(),
    ensures
        final(out)@ == old(out)@ + input_bytes(input@),
{
    put_bytes(out, input.previous_output.txid.as_slice());
    put_u32_le(out, input.previous_output.vout);
    put_u32_le(out, input.script_sig.len() as u32);
    put_bytes(out, input.script_sig.as_slice());
    put_u32_le(out, input.sequence);
    assert(out@ =~= old(out)@ + input_bytes(input@));
}

/// Appends the encoding of `output` to `out`.
fn put_output(out: &mut Vec<u8>, output: &TxOutput)
    requires
        output@.well_formed(),
    ensures
        final(out)@ == old(out)@ + output_bytes(output@),
{
    put_u64_le(out, output.value);
    put_u32_le(out, output.script_pubkey.len() as u32);
    put_bytes(out, output.script_pubkey.as_slice());
    assert(out@ =~= old(out)@ + output_bytes(output@));
}

impl BitcoinSerialize for LegacyTransaction {
    open spec fn serializable(&self) -> bool {
        self@.well_formed()
    }

    open spec fn wire_bytes(&self) -> Seq<u8> {
        transaction_bytes(self@)
    }

    fn serialize(&self) -> (bytes: Vec<u8>) {
        let ghost view = self@;
        let mut out: Vec<u8> = Vec::new();
        put_i32_le(&mut out, self.version);
        put_u32_le(&mut out, self.inputs.len() as u32);
        let ghost head = out@;
        let mut i: usize = 0;
        while i < self.inputs.len()
            invariant
                i <= self.inputs.len(),
                view == self@,
                view.well_formed(),
                out@ == head + inputs_bytes(view.inputs.take(i as int)),
            decreases self.inputs.len() - i,
        {
            assert(view.inputs[i as int] == self.inputs@[i as int]@);
            put_input(&mut out, &self.inputs[i]);
            proof {
                let next = view.inputs.take(i + 1);
                assert(next.drop_last() =~= view.inputs.take(i as int));
                assert(out@ =~= head + inputs_bytes(next));
            }
            i += 1;
        }
        assert(view.inputs.take(i as int) =~= view.inputs);
        put_u32_le(&mut out, self.outputs.len() as u32);
        let ghost head = out@;
        let mut j: usize = 0;
        while j < self.outputs.len()
            invariant
                j <= self.outputs.len(),
                view == self@,
                view.well_formed(),
                out@ == head + outputs_bytes(view.outputs.take(j as int)),
            decreases self.outputs.len() - j,
        {
            assert(view.outputs[j as int] == self.outputs@[j as int]@);
            put_output(&mut out, &self.outputs[j]);
            proof {
                let next = view.outputs.take(j + 1);
                assert(next.drop_last() =~= view.outputs.take(j as int));
                assert(out@ =~= head + outputs_bytes(next));
            }
            j += 1;
        }
        assert(view.outputs.take(j as int) =~= view.outputs);
        put_u32_le(&mut out, self.lock_time);
        assert(out@ =~= transaction_bytes(view));
        out
    }
}

impl LegacyTransaction {
    /// Whether the transaction can be encoded: both lists and every script
    /// are short enough for their 32-bit length fields.
    pub fn is_serializable(&self) -> (ok: bool)
        ensures
            ok == self.serializable(),
    {
        if self.inputs.len() > u32::MAX as usize || self.outputs.len() > u32::MAX as usize {
            return false;
        }
        let mut i: usize = 0;
        while i < self.inputs.len()
            invariant
                i <= self.inputs.len(),
                forall|k: int| 0 <= k < i ==> (#[trigger] self@.inputs[k]).well_formed(),
            decreases self.inputs.len() - i,
        {
            if self.inputs[i].script_sig.len() > u32::MAX as usize {
                assert(!self@.inputs[i as int].well_formed());
                return false;
            }
            assert(self@.inputs[i as int].well_formed());
            i += 1;
        }
        let mut j: usize = 0;
        while j < self.outputs.len()
            invariant
                j <= self.outputs.len(),
                forall|k: int| 0 <= k < j ==> (#[trigger] self@.outputs[k]).well_formed(),
            decreases self.outputs.len() - j,
        {
            if self.outputs[j].script_pubkey.len() > u32::MAX as usize {
                assert(!self@.outputs[j as int].well_formed());
                return false;
            }
            assert(self@.outputs[j as int].well_formed());
            j += 1;
        }
        true
    }
}

/// Encoding is deterministic: two transactions that hold the same values
/// have the same bytes on the wire, whatever else differs between them.
pub proof fn lemma_serialize_deterministic(a: LegacyTransaction, b: LegacyTransaction)
    requires
        a@ == b@,
    ensures
        a.wire_bytes() == b.wire_bytes(),
{
}

} // verus!
