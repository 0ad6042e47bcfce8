//! Step-by-step construction of a transaction.

use vstd::prelude::*;
use crate::transaction::{
    input_views,
    lemma_input_views_push,
    lemma_output_views_push,
    output_views,
    LegacyTransaction,
    TransactionView,
    TxInput,
    TxOutput,
};

verus! {

/// Collects the fields of a transaction. Nothing is checked while it is
/// filled or when it is built: a transaction with no input or no output can
/// be built.
pub struct LegacyTransactionBuilder {
    pub version: i32,
    pub inputs: Vec<TxInput>,
    pub outputs: Vec<TxOutput>,
    pub lock_time: u32,
}

impl View for LegacyTransactionBuilder {
    type V = TransactionView;

    /// The transaction that `build` would return.
    open spec fn view(&self) -> TransactionView {
        TransactionView {
            version: self.version,
            inputs: input_views(self.inputs@),
            outputs: output_views(self.outputs@),
            lock_time: self.lock_time,
        }
    }
}

/// What a new builder holds: version 1, no input, no output, lock time 0.
pub open spec fn initial_transaction() -> TransactionView {
    TransactionView { version: 1, inputs: Seq::empty(), outputs: Seq::empty(), lock_time: 0 }
}

impl Default for LegacyTransactionBuilder {
    fn default() -> (builder: Self)
        ensures
            builder.version == 1,
            builder.inputs@ == Seq::<TxInput>::empty(),
            builder.outputs@ == Seq::<TxOutput>::empty(),
            builder.lock_time == 0,
            builder@ == initial_transaction(),
    {
        let builder = Self { version: 1, inputs: Vec::new(), outputs: Vec::new(), lock_time: 0 };
        assert(builder@.inputs =~= Seq::empty());
        assert(builder@.outputs =~= Seq::empty());
        builder
    }
}

impl LegacyTransactionBuilder {
    /// A builder with version 1, no input, no output and lock time 0.
    pub fn new() -> (builder: Self)
        ensures
            builder.version == 1,
            builder.inputs@ == Seq::<TxInput>::empty(),
            builder.outputs@ == Seq::<TxOutput>::empty(),
            builder.lock_time == 0,
            builder@ == initial_transaction(),
    {
        Self::default()
    }

    /// Sets the version; nothing else changes.
    pub fn version(self, version: i32) -> (builder: Self)
        ensures
            builder.version == version,
            builder.inputs == self.inputs,
            builder.outputs == self.outputs,
            builder.lock_time == self.lock_time,
    {
        let mut builder = self;
        builder.version = version;
        builder
    }

    /// Puts `input` behind the inputs added so far; nothing else changes.
    pub fn add_input(self, input: TxInput) -> (builder: Self)
        ensures
            builder.version == self.version,
            builder.inputs@ == self.inputs@.push(input),
            builder.outputs == self.outputs,
            builder.lock_time == self.lock_time,
            builder@.inputs == self@.inputs.push(input@),
    {
        let mut builder = self;
        builder.inputs.push(input);
        proof {
            lemma_input_views_push(self.inputs@, input);
        }
        builder
    }

    /// Puts `output` behind the outputs added so far; nothing else changes.
    pub fn add_output(self, output: TxOutput) -> (builder: Self)
        ensures
            builder.version == self.version,
            builder.inputs == self.inputs,
            builder.outputs@ == self.outputs@.push(output),
            builder.lock_time == self.lock_time,
            builder@.outputs == self@.outputs.push(output@),
    {
        let mut builder = self;
        builder.outputs.push(output);
        proof {
            lemma_output_views_push(self.outputs@, output);
        }
        builder
    }

    /// Sets the lock time; nothing else changes.
    pub fn lock_time(self, lock_time: u32) -> (builder: Self)
        ensures
            builder.version == self.version,
            builder.inputs == self.inputs,
            builder.outputs == self.outputs,
            builder.lock_time == lock_time,
    {
        let mut builder = self;
        builder.lock_time = lock_time;
        builder
    }

    /// The transaction with exactly the fields collected, lists in the order
    /// in which their members were added.
    pub fn build(self) -> (tx: LegacyTransaction)
        ensures
            tx.version == self.version,
            tx.inputs == self.inputs,
            tx.outputs == self.outputs,
            tx.lock_time == self.lock_time,
            tx@ == self@,
    {
        LegacyTransaction {
            version: self.version,
            inputs: self.inputs,
            outputs: self.outputs,
            lock_time: self.lock_time,
        }
    }
}

impl LegacyTransaction {
    /// A builder with version 1, no input, no output and lock time 0.
    pub fn builder() -> (builder: LegacyTransactionBuilder)
        ensures
            builder.version == 1,
            builder.inputs@ == Seq::<TxInput>::empty(),
            builder.outputs@ == Seq::<TxOutput>::empty(),
            builder.lock_time == 0,
            builder@ == initial_transaction(),
    {
        LegacyTransactionBuilder::default()
    }
}

} // verus!
