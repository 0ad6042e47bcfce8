//! The errors of the library.

use vstd::prelude::*;
use vstd::string::StringExecFns;

verus! {

/// What can go wrong in this library.
///
/// The codec reports `InvalidTransaction` only. `InvalidAmount` and
/// `ParseError` belong to the command parser, and `InvalidScript` is kept for
/// a layer that interprets scripts.
#[derive(Debug)]
pub enum BitcoinError {
    /// The buffer is not the encoding of a transaction.
    InvalidTransaction,
    /// A script is malformed.
    InvalidScript,
    /// An amount is not an unsigned 64-bit number.
    InvalidAmount,
    /// The command line is malformed; the text says how.
    ParseError(String),
}

/// What a [`BitcoinError`] holds.
pub enum BitcoinErrorView {
    InvalidTransaction,
    InvalidScript,
    InvalidAmount,
    ParseError(Seq<char>),
}

impl View for BitcoinError {
    type V = BitcoinErrorView;

    open spec fn view(&self) -> BitcoinErrorView {
        match self {
            BitcoinError::InvalidTransaction => BitcoinErrorView::InvalidTransaction,
            BitcoinError::InvalidScript => BitcoinErrorView::InvalidScript,
            BitcoinError::InvalidAmount => BitcoinErrorView::InvalidAmount,
            BitcoinError::ParseError(detail) => BitcoinErrorView::ParseError(detail@),
        }
    }
}

impl BitcoinErrorView {
    /// The text shown for the error.
    pub open spec fn message(self) -> Seq<char> {
        match self {
            BitcoinErrorView::InvalidTransaction => "Invalid transaction format"@,
            BitcoinErrorView::InvalidScript => "Invalid script format"@,
            BitcoinErrorView::InvalidAmount => "Invalid amount"@,
            BitcoinErrorView::ParseError(detail) => "Parse error: "@ + detail,
        }
    }
}

impl BitcoinError {
    /// The text shown for the error.
    pub fn message(&self) -> (text: String)
        ensures
            text@ == self@.message(),
    {
        match self {
            BitcoinError::InvalidTransaction => String::from_str("Invalid transaction format"),
            BitcoinError::InvalidScript => String::from_str("Invalid script format"),
            BitcoinError::InvalidAmount => String::from_str("Invalid amount"),
            BitcoinError::ParseError(detail) => String::from_str("Parse error: ").concat(
                detail.as_str(),
            ),
        }
    }
}

} // verus!
