//! The transaction data model: the executable records, their mathematical
//! views, and equality by value.

use vstd::prelude::*;
use vstd::std_specs::cmp::PartialEqSpecImpl;

verus! {

/// Length in bytes of a transaction identifier.
pub const TXID_LEN: usize = 32;

/// A reference to one output of an earlier transaction.
#[derive(Debug, Clone)]
pub struct OutPoint {
    pub txid: [u8; 32],
    pub vout: u32,
}

/// A claim on an earlier output, with its unlocking script.
#[derive(Debug, Clone)]
pub struct TxInput {
    pub previous_output: OutPoint,
    pub script_sig: Vec<u8>,
    pub sequence: u32,
}

/// An amount, in the smallest unit, with its locking script.
#[derive(Debug, Clone)]
pub struct TxOutput {
    pub value: u64,
    pub script_pubkey: Vec<u8>,
}

/// A transaction in the layout that precedes segregated witness.
#[derive(Debug, Clone)]
pub struct LegacyTransaction {
    pub version: i32,
    pub inputs: Vec<TxInput>,
    pub outputs: Vec<TxOutput>,
    pub lock_time: u32,
}

/// What an [`OutPoint`] holds.
pub struct OutPointView {
    pub txid: Seq<u8>,
    pub vout: u32,
}

/// What a [`TxInput`] holds.
pub struct TxInputView {
    pub previous_output: OutPointView,
    pub script_sig: Seq<u8>,
    pub sequence: u32,
}

/// What a [`TxOutput`] holds.
pub struct TxOutputView {
    pub value: u64,
    pub script_pubkey: Seq<u8>,
}

/// What a [`LegacyTransaction`] holds.
pub struct TransactionView {
    pub version: i32,
    pub inputs: Seq<TxInputView>,
    pub outputs: Seq<TxOutputView>,
    pub lock_time: u32,
}

impl View for OutPoint {
    type V = OutPointView;

    open spec fn view(&self) -> OutPointView {
        OutPointView { txid: self.txid@, vout: self.vout }
    }
}

impl View for TxInput {
    type V = TxInputView;

    open spec fn view(&self) -> TxInputView {
        TxInputView {
            previous_output: self.previous_output@,
            script_sig: self.script_sig@,
            sequence: self.sequence,
        }
    }
}

impl View for TxOutput {
    type V = TxOutputView;

    open spec fn view(&self) -> TxOutputView {
        TxOutputView { value: self.value, script_pubkey: self.script_pubkey@ }
    }
}

/// The views of a list of inputs, in order.
pub open spec fn input_views(inputs: Seq<TxInput>) -> Seq<TxInputView> {
    Seq::new(inputs.len(), |i: int| inputs[i]@)
}

/// The views of a list of outputs, in order.
pub open spec fn output_views(outputs: Seq<TxOutput>) -> Seq<TxOutputView> {
    Seq::new(outputs.len(), |i: int| outputs[i]@)
}

/// The views of a list with one more input at its end.
pub proof fn lemma_input_views_push(inputs: Seq<TxInput>, input: TxInput)
    ensures
        input_views(inputs.push(input)) == input_views(inputs).push(input@),
{
    assert(input_views(inputs.push(input)) =~= input_views(inputs).push(input@));
}

/// The views of a list with one more output at its end.
pub proof fn lemma_output_views_push(outputs: Seq<TxOutput>, output: TxOutput)
    ensures
        output_views(outputs.push(output)) == output_views(outputs).push(output@),
{
    assert(output_views(outputs.push(output)) =~= output_views(outputs).push(output@));
}

impl View for LegacyTransaction {
    type V = TransactionView;

    open spec fn view(&self) -> TransactionView {
        TransactionView {
            version: self.version,
            inputs: input_views(self.inputs@),
            outputs: output_views(self.outputs@),
            lock_time: self.lock_time,
        }
    }
}

impl OutPointView {
    /// The identifier has its fixed width.
    pub open spec fn well_formed(self) -> bool {
        self.txid.len() == TXID_LEN
    }
}

impl TxInputView {
    /// The outpoint is well formed and the script's length fits its
    /// 32-bit prefix.
    pub open spec fn well_formed(self) -> bool {
        &&& self.previous_output.well_formed()
        &&& self.script_sig.len() <= u32::MAX
    }
}

impl TxOutputView {
    /// The script's length fits its 32-bit prefix.
    pub open spec fn well_formed(self) -> bool {
        self.script_pubkey.len() <= u32::MAX
    }
}

impl TransactionView {
    /// Both lists fit their 32-bit counts and every member is well formed.
    pub open spec fn well_formed(self) -> bool {
        &&& self.inputs.len() <= u32::MAX
        &&& self.outputs.len() <= u32::MAX
        &&& forall|i: int| 0 <= i < self.inputs.len() ==> (#[trigger] self.inputs[i]).well_formed()
        &&& forall|i: int|
            0 <= i < self.outputs.len() ==> (#[trigger] self.outputs[i]).well_formed()
    }
}

/// Whether two byte strings hold the same bytes.
pub(crate) fn bytes_equal(a: &[u8], b: &[u8]) -> (r: bool)
    ensures
        r == (a@ == b@),
{
    if a.len() != b.len() {
        return false;
    }
    let mut i: usize = 0;
    while i < a.len()
        invariant
            i <= a.len(),
            a.len() == b.len(),
            forall|j: int| 0 <= j < i ==> a@[j] == b@[j],
        decreases a.len() - i,
    {
        if a[i] != b[i] {
            return false;
        }
        i += 1;
    }
    assert(a@ =~= b@);
    true
}

impl PartialEq for OutPoint {
    fn eq(&self, other: &Self) -> (r: bool) {
        bytes_equal(self.txid.as_slice(), other.txid.as_slice()) && self.vout == other.vout
    }
}

impl PartialEqSpecImpl for OutPoint {
    open spec fn obeys_eq_spec() -> bool {
        true
    }

    open spec fn eq_spec(&self, other: &Self) -> bool {
        self@ == other@
    }
}

impl Eq for OutPoint {

}

impl PartialEq for TxInput {
    fn eq(&self, other: &Self) -> (r: bool) {
        self.previous_output == other.previous_output && bytes_equal(
            self.script_sig.as_slice(),
            other.script_sig.as_slice(),
        ) && self.sequence == other.sequence
    }
}

impl PartialEqSpecImpl for TxInput {
    open spec fn obeys_eq_spec() -> bool {
        true
    }

    open spec fn eq_spec(&self, other: &Self) -> bool {
        self@ == other@
    }
}

impl Eq for TxInput {

}

impl PartialEq for TxOutput {
    fn eq(&self, other: &Self) -> (r: bool) {
        self.value == other.value && bytes_equal(
            self.script_pubkey.as_slice(),
            other.script_pubkey.as_slice(),
        )
    }
}

impl PartialEqSpecImpl for TxOutput {
    open spec fn obeys_eq_spec() -> bool {
        true
    }

    open spec fn eq_spec(&self, other: &Self) -> bool {
        self@ == other@
    }
}

impl Eq for TxOutput {

}

impl PartialEq for LegacyTransaction {
    fn eq(&self, other: &Self) -> (r: bool) {
        let same_inputs = self.inputs == other.inputs;
        let same_outputs = self.outputs == other.outputs;
        proof {
            let (a, b) = (self.inputs@, other.inputs@);
            if same_inputs {
                assert(input_views(a) =~= input_views(b));
            } else if a.len() == b.len() {
                let i = choose|i: int| 0 <= i < a.len() && a[i]@ != b[i]@;
                assert(input_views(a)[i] != input_views(b)[i]);
            } else {
                assert(input_views(a).len() != input_views(b).len());
            }
            let (c, d) = (self.outputs@, other.outputs@);
            if same_outputs {
                assert(output_views(c) =~= output_views(d));
            } else if c.len() == d.len() {
                let i = choose|i: int| 0 <= i < c.len() && c[i]@ != d[i]@;
                assert(output_views(c)[i] != output_views(d)[i]);
            } else {
                assert(output_views(c).len() != output_views(d).len());
            }
        }
        self.version == other.version && same_inputs && same_outputs && self.lock_time
            == other.lock_time
    }
}

impl PartialEqSpecImpl for LegacyTransaction {
    open spec fn obeys_eq_spec() -> bool {
        true
    }

    open spec fn eq_spec(&self, other: &Self) -> bool {
        self@ == other@
    }
}

impl Eq for LegacyTransaction {

}

} // verus!
