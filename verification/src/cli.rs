//! The command line: from the words typed to a command.
//!
//! Two commands exist: `send <amount> <address>` and `balance`. An amount is
//! an unsigned 64-bit number in decimal digits, with an optional `+` before
//! them.

use vstd::prelude::*;
use vstd::string::{StrSliceExecFns, StringExecFns};
use crate::error::{BitcoinError, BitcoinErrorView};

verus! {

/// A command, as the user gave it.
#[derive(Debug)]
pub enum CliCommand {
    /// Send `amount` of the smallest unit to `address`.
    Send { amount: u64, address: String },
    /// Show the balance.
    Balance,
}

/// What a [`CliCommand`] holds.
pub enum CliCommandView {
    Send { amount: u64, address: Seq<char> },
    Balance,
}

impl View for CliCommand {
    type V = CliCommandView;

    open spec fn view(&self) -> CliCommandView {
        match self {
            CliCommand::Send { amount, address } => CliCommandView::Send {
                amount: *amount,
                address: address@,
            },
            CliCommand::Balance => CliCommandView::Balance,
        }
    }
}

// ---------------------------------------------------------------------------
// Amounts
// ---------------------------------------------------------------------------

/// Whether `c` is one of the ten decimal digits.
pub open spec fn is_digit(c: char) -> bool {
    '0' <= c <= '9'
}

/// The number that a decimal digit stands for.
pub open spec fn digit_value(c: char) -> nat {
    (c as nat - '0' as nat) as nat
}

/// The number that a string of decimal digits stands for; 0 for none.
pub open spec fn decimal_value(digits: Seq<char>) -> nat
    decreases digits.len(),
{
    if digits.len() == 0 {
        0
    } else {
        decimal_value(digits.drop_last()) * 10 + digit_value(digits.last())
    }
}

/// One or more characters, each a decimal digit.
pub open spec fn is_decimal(digits: Seq<char>) -> bool {
    &&& digits.len() > 0
    &&& forall|i: int| 0 <= i < digits.len() ==> is_digit(#[trigger] digits[i])
}

/// The text without the `+` that may stand before the digits.
pub open spec fn unsigned_part(text: Seq<char>) -> Seq<char> {
    if text.len() > 0 && text[0] == '+' {
        text.subrange(1, text.len() as int)
    } else {
        text
    }
}

/// The amount that `text` stands for: its digits' value where the text is
/// one or more decimal digits, with or without a `+` before them, and the
/// value fits 64 bits. Anything else is no amount: the empty text, a lone
/// sign, a `-`, a blank, a digit of another script, too large a number.
pub open spec fn parsed_amount(text: Seq<char>) -> Option<u64> {
    let digits = unsigned_part(text);
    if is_decimal(digits) && decimal_value(digits) <= u64::MAX {
        Some(decimal_value(digits) as u64)
    } else {
        None
    }
}

/// The value of a string of digits is at least that of each of its starts.
proof fn lemma_decimal_value_monotone(digits: Seq<char>, k: int)
    requires
        0 <= k <= digits.len(),
    ensures
        decimal_value(digits.take(k)) <= decimal_value(digits),
    decreases digits.len() - k,
{
    if k == digits.len() {
        assert(digits.take(k) =~= digits);
    } else {
        lemma_decimal_value_monotone(digits, k + 1);
        assert(digits.take(k + 1).drop_last() =~= digits.take(k));
        assert(decimal_value(digits.take(k)) * 10 >= decimal_value(digits.take(k)));
    }
}

/// The amount that `text` stands for, if it stands for one.
pub(crate) fn parse_amount(text: &str) -> (r: Option<u64>)
    ensures
        r == parsed_amount(text@),
{
    let ghost digits = unsigned_part(text@);
    if !text.is_ascii() {
        proof {
            let i = choose|i: int|
                0 <= i < text@.len() && !('\0' <= #[trigger] text@[i] <= '\u{7f}');
            if text@[0] == '+' {
                assert(!is_digit(digits[i - 1]));
            } else {
                assert(!is_digit(digits[i]));
            }
        }
        return None;
    }
    let n: usize = text.unicode_len();
    let start: usize = if n > 0 && text.get_ascii(0) == 43u8 {
        1
    } else {
        0
    };
    if start == n {
        return None;
    }
    let mut value: u64 = 0;
    let mut i: usize = start;
    proof {
        assert(digits.take(0) =~= Seq::empty());
    }
    while i < n
        invariant
            start <= i <= n,
            n == text@.len(),
            text.is_ascii(),
            digits == unsigned_part(text@),
            digits == text@.subrange(start as int, n as int),
            forall|j: int| 0 <= j < i - start ==> is_digit(#[trigger] digits[j]),
            value == decimal_value(digits.take(i - start)),
        decreases n - i,
    {
        let b: u8 = text.get_ascii(i);
        let ghost c = digits[i - start];
        assert(c == text@[i as int]);
        if b < 48u8 || b > 57u8 {
            assert(!is_digit(c));
            return None;
        }
        let d: u64 = (b - 48u8) as u64;
        proof {
            let next = digits.take(i - start + 1);
            assert(next.drop_last() =~= digits.take(i - start));
            assert(next.last() == c);
            assert(digit_value(c) == d);
            assert(decimal_value(next) == value * 10 + d);
            lemma_decimal_value_monotone(digits, i - start + 1);
        }
        if value > (u64::MAX - d) / 10 {
            return None;
        }
        value = value * 10 + d;
        i += 1;
    }
    proof {
        assert(digits.take(n - start) =~= digits);
    }
    Some(value)
}

// ---------------------------------------------------------------------------
// Commands
// ---------------------------------------------------------------------------

/// The texts of a list of words, in order.
pub open spec fn word_views(args: Seq<String>) -> Seq<Seq<char>> {
    Seq::new(args.len(), |i: int| args[i]@)
}

/// The command that the words stand for, or the error that they earn.
///
/// The first word names the command. `send` takes exactly two more, an
/// amount and an address, and the address is taken as it is; `balance`
/// takes none. The number of words is checked before the amount is.
pub open spec fn parsed_command(args: Seq<Seq<char>>) -> Result<CliCommandView, BitcoinErrorView> {
    if args.len() == 0 {
        Err(BitcoinErrorView::ParseError("No command provided"@))
    } else if args[0] == "send"@ {
        if args.len() != 3 {
            Err(BitcoinErrorView::ParseError("Usage: send <amount> <address>"@))
        } else {
            match parsed_amount(args[1]) {
                None => Err(BitcoinErrorView::InvalidAmount),
                Some(amount) => Ok(CliCommandView::Send { amount, address: args[2] }),
            }
        }
    } else if args[0] == "balance"@ {
        if args.len() != 1 {
            Err(BitcoinErrorView::ParseError("Usage: balance"@))
        } else {
            Ok(CliCommandView::Balance)
        }
    } else {
        Err(BitcoinErrorView::ParseError("Unknown command"@))
    }
}

/// What the parser returned, by its view.
pub open spec fn outcome_view(r: Result<CliCommand, BitcoinError>) -> Result<
    CliCommandView,
    BitcoinErrorView,
> {
    match r {
        Ok(command) => Ok(command@),
        Err(error) => Err(error@),
    }
}

/// Turns the words of a command line into a command.
pub fn parse_cli_args(args: &[String]) -> (r: Result<CliCommand, BitcoinError>)
    ensures
        outcome_view(r) == parsed_command(word_views(args@)),
{
    if args.len() == 0 {
        return Err(BitcoinError::ParseError(String::from_str("No command provided")));
    }
    let send = String::from_str("send");
    let balance = String::from_str("balance");
    if args[0] == send {
        if args.len() != 3 {
            return Err(
                BitcoinError::ParseError(String::from_str("Usage: send <amount> <address>")),
            );
        }
        match parse_amount(args[1].as_str()) {
            None => Err(BitcoinError::InvalidAmount),
            Some(amount) => Ok(CliCommand::Send { amount, address: args[2].clone() }),
        }
    } else if args[0] == balance {
        if args.len() != 1 {
            return Err(BitcoinError::ParseError(String::from_str("Usage: balance")));
        }
        Ok(CliCommand::Balance)
    } else {
        Err(BitcoinError::ParseError(String::from_str("Unknown command")))
    }
}

} // verus!
