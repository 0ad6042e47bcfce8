//! Decoding: from bytes on the wire to a transaction, or to an error where
//! the bytes are not the encoding of one.

use vstd::prelude::*;
use vstd::slice::{slice_subrange, slice_to_vec};
use vstd::std_specs::convert::TryFromSpecImpl;
use crate::error::BitcoinError;
use crate::little_endian::{get_i32_le, get_u32_le, get_u64_le};
use crate::transaction::{
    input_views,
    lemma_input_views_push,
    lemma_output_views_push,
    output_views,
    LegacyTransaction,
    OutPoint,
    TxInput,
    TxOutput,
};
use crate::wire::{
    decoded,
    lemma_decoded_is_parsed,
    lemma_parse_inputs_step,
    lemma_parse_outputs_step,
    parse_input,
    parse_inputs,
    parse_output,
    parse_outputs,
    parse_transaction,
    MIN_TRANSACTION_LEN,
};

verus! {

/// Reads the input that starts at `pos`, with the position behind it, or
/// nothing where the buffer ends before the input does.
fn read_input(data: &[u8], pos: usize) -> (r: Option<(TxInput, usize)>)
    requires
        pos <= data.len(),
    ensures
        match r {
            Some((input, next)) => {
                &&& parse_input(data@, pos as int) == Some((input@, next as int))
                &&& next <= data.len()
            },
            None => parse_input(data@, pos as int) is None,
        },
{
    if data.len() - pos < 40 {
        return None;
    }
    let mut txid = [0u8; 32];
    let mut i: usize = 0;
    while i < 32
        invariant
            i <= 32,
            pos + 40 <= data.len(),
            forall|j: int| 0 <= j < i ==> txid@[j] == data@[pos + j],
        decreases 32 - i,
    {
        txid[i] = data[pos + i];
        i += 1;
    }
    let vout: u32 = get_u32_le(data, pos + 32);
    let len: usize = get_u32_le(data, pos + 36) as usize;
    let body: usize = pos + 40;
    if data.len() - body < 4 || data.len() - body - 4 < len {
        return None;
    }
    let script_sig = slice_to_vec(slice_subrange(data, body, body + len));
    let sequence: u32 = get_u32_le(data, body + len);
    let input = TxInput { previous_output: OutPoint { txid, vout }, script_sig, sequence };
    proof {
        assert(txid@ =~= data@.subrange(pos as int, pos + 32));
    }
    Some((input, body + len + 4))
}

/// Reads the output that starts at `pos`, with the position behind it, or
/// nothing where the buffer ends before the output does.
fn read_output(data: &[u8], pos: usize) -> (r: Option<(TxOutput, usize)>)
    requires
        pos <= data.len(),
    ensures
        match r {
            Some((output, next)) => {
                &&& parse_output(data@, pos as int) == Some((output@, next as int))
                &&& next <= data.len()
            },
            None => parse_output(data@, pos as int) is None,
        },
{
    if data.len() - pos < 12 {
        return None;
    }
    let value: u64 = get_u64_le(data, pos);
    let len: usize = get_u32_le(data, pos + 8) as usize;
    let body: usize = pos + 12;
    if data.len() - body < len {
        return None;
    }
    let script_pubkey = slice_to_vec(slice_subrange(data, body, body + len));
    Some((TxOutput { value, script_pubkey }, body + len))
}

/// Reads `n` inputs one after another from `start` on, with the position
/// behind the last, or nothing where the buffer ends before they do.
fn read_inputs(data: &[u8], start: usize, n: u32) -> (r: Option<(Vec<TxInput>, usize)>)
    requires
        start <= data.len(),
    ensures
        match r {
            Some((inputs, next)) => {
                &&& parse_inputs(data@, start as int, n as nat) == Some(
                    (input_views(inputs@), next as int),
                )
                &&& next <= data.len()
            },
            None => parse_inputs(data@, start as int, n as nat) is None,
        },
{
    let mut inputs: Vec<TxInput> = Vec::new();
    let mut pos: usize = start;
    let mut k: u32 = 0;
    proof {
        assert(input_views(inputs@) =~= Seq::empty());
    }
    while k < n
        invariant
            k <= n,
            pos <= data.len(),
            parse_inputs(data@, start as int, k as nat) == Some(
                (input_views(inputs@), pos as int),
            ),
        decreases n - k,
    {
        proof {
            lemma_parse_inputs_step(data@, start as int, k as nat, n as nat);
        }
        match read_input(data, pos) {
            None => {
                return None;
            },
            Some((input, next)) => {
                proof {
                    lemma_input_views_push(inputs@, input);
                }
                inputs.push(input);
                pos = next;
            },
        }
        k += 1;
    }
    Some((inputs, pos))
}

/// Reads `n` outputs one after another from `start` on, with the position
/// behind the last, or nothing where the buffer ends before they do.
fn read_outputs(data: &[u8], start: usize, n: u32) -> (r: Option<(Vec<TxOutput>, usize)>)
    requires
        start <= data.len(),
    ensures
        match r {
            Some((outputs, next)) => {
                &&& parse_outputs(data@, start as int, n as nat) == Some(
                    (output_views(outputs@), next as int),
                )
                &&& next <= data.len()
            },
            None => parse_outputs(data@, start as int, n as nat) is None,
        },
{
    let mut outputs: Vec<TxOutput> = Vec::new();
    let mut pos: usize = start;
    let mut k: u32 = 0;
    proof {
        assert(output_views(outputs@) =~= Seq::empty());
    }
    while k < n
        invariant
            k <= n,
            pos <= data.len(),
            parse_outputs(data@, start as int, k as nat) == Some(
                (output_views(outputs@), pos as int),
            ),
        decreases n - k,
    {
        proof {
            lemma_parse_outputs_step(data@, start as int, k as nat, n as nat);
        }
        match read_output(data, pos) {
            None => {
                return None;
            },
            Some((output, next)) => {
                proof {
                    lemma_output_views_push(outputs@, output);
                }
                outputs.push(output);
                pos = next;
            },
        }
        k += 1;
    }
    Some((outputs, pos))
}

/// Reads a transaction from the start of `data`, or nothing where the
/// buffer is shorter than the fixed fields or ends before a declared field
/// does.
fn read_transaction(data: &[u8]) -> (r: Option<LegacyTransaction>)
    ensures
        match r {
            Some(tx) => parse_transaction(data@) == Some(tx@),
            None => parse_transaction(data@) is None,
        },
{
    if data.len() < MIN_TRANSACTION_LEN {
        return None;
    }
    let version: i32 = get_i32_le(data, 0);
    let n_in: u32 = get_u32_le(data, 4);
    let (inputs, pos) = match read_inputs(data, 8, n_in) {
        None => {
            return None;
        },
        Some(read) => read,
    };
    if data.len() - pos < 4 {
        return None;
    }
    let n_out: u32 = get_u32_le(data, pos);
    let (outputs, pos) = match read_outputs(data, pos + 4, n_out) {
        None => {
            return None;
        },
        Some(read) => read,
    };
    if data.len() - pos < 4 {
        return None;
    }
    let lock_time: u32 = get_u32_le(data, pos);
    Some(LegacyTransaction { version, inputs, outputs, lock_time })
}

impl<'a> TryFrom<&'a [u8]> for LegacyTransaction {
    type Error = BitcoinError;

    /// Decodes the transaction that `data` starts with. Bytes behind it are
    /// neither read nor an error. Fails on every buffer that does not start
    /// with the encoding of a transaction; one shorter than the fixed fields
    /// is rejected before anything is read.
    fn try_from(data: &'a [u8]) -> (r: Result<LegacyTransaction, BitcoinError>)
        ensures
            match r {
                Ok(tx) => decoded(data@) == Some(tx@),
                Err(e) => decoded(data@) is None && e is InvalidTransaction,
            },
            data@.len() < MIN_TRANSACTION_LEN ==> r is Err,
    {
        proof {
            lemma_decoded_is_parsed(data@);
        }
        match read_transaction(data) {
            Some(tx) => Ok(tx),
            None => Err(BitcoinError::InvalidTransaction),
        }
    }
}

impl<'a> TryFromSpecImpl<&'a [u8]> for LegacyTransaction {
    /// `try_from` is specified by its own `ensures`, over views: the buffer
    /// fixes what the transaction holds, not which value holds it.
    open spec fn obeys_try_from_spec() -> bool {
        false
    }

    open spec fn try_from_spec(data: &'a [u8]) -> Result<LegacyTransaction, BitcoinError> {
        arbitrary()
    }
}

} // verus!
