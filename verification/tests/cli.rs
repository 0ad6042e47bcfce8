use bitcoin_tx::{parse_cli_args, BitcoinError, CliCommand};

fn words(list: &[&str]) -> Vec<String> {
    list.iter().map(|w| w.to_string()).collect()
}

fn amount_of(text: &str) -> Option<u64> {
    match parse_cli_args(&words(&["send", text, "addr"])) {
        Ok(CliCommand::Send { amount, address }) => {
            assert_eq!(address, "addr");
            Some(amount)
        }
        Ok(CliCommand::Balance) => panic!("send gave balance"),
        Err(BitcoinError::InvalidAmount) => None,
        Err(other) => panic!("unexpected error: {:?}", other),
    }
}

fn parse_error_of(list: &[&str]) -> String {
    match parse_cli_args(&words(list)) {
        Err(BitcoinError::ParseError(detail)) => detail,
        other => panic!("expected a parse error, got {:?}", other),
    }
}

#[test]
fn no_words_is_an_error() {
    assert_eq!(parse_error_of(&[]), "No command provided");
}

#[test]
fn unknown_command_is_an_error() {
    assert_eq!(parse_error_of(&["pay"]), "Unknown command");
    assert_eq!(parse_error_of(&["Send", "1", "a"]), "Unknown command");
    assert_eq!(parse_error_of(&["", "1", "a"]), "Unknown command");
    assert_eq!(parse_error_of(&["sendx", "1", "a"]), "Unknown command");
    assert_eq!(parse_error_of(&["balance "]), "Unknown command");
}

#[test]
fn send_takes_two_arguments() {
    assert_eq!(parse_error_of(&["send"]), "Usage: send <amount> <address>");
    assert_eq!(parse_error_of(&["send", "1"]), "Usage: send <amount> <address>");
    assert_eq!(parse_error_of(&["send", "1", "a", "b"]), "Usage: send <amount> <address>");
    // the number of words is checked before the amount
    assert_eq!(parse_error_of(&["send", "x"]), "Usage: send <amount> <address>");
}

#[test]
fn balance_takes_no_argument() {
    assert!(matches!(parse_cli_args(&words(&["balance"])), Ok(CliCommand::Balance)));
    assert_eq!(parse_error_of(&["balance", "now"]), "Usage: balance");
}

#[test]
fn send_gives_amount_and_address() {
    match parse_cli_args(&words(&["send", "5000000000", "1A1zP1eP5QGefi2DMPTfTL5SLmv7DivfNa"])) {
        Ok(CliCommand::Send { amount, address }) => {
            assert_eq!(amount, 5_000_000_000);
            assert_eq!(address, "1A1zP1eP5QGefi2DMPTfTL5SLmv7DivfNa");
        }
        other => panic!("unexpected: {:?}", other),
    }
    match parse_cli_args(&words(&["send", "1", ""])) {
        Ok(CliCommand::Send { amount, address }) => {
            assert_eq!(amount, 1);
            assert_eq!(address, "");
        }
        other => panic!("unexpected: {:?}", other),
    }
}

#[test]
fn amounts_are_decimal_u64() {
    assert_eq!(amount_of("0"), Some(0));
    assert_eq!(amount_of("7"), Some(7));
    assert_eq!(amount_of("42"), Some(42));
    assert_eq!(amount_of("007"), Some(7));
    assert_eq!(amount_of("+5"), Some(5));
    assert_eq!(amount_of("+0"), Some(0));
    assert_eq!(amount_of("1234567890"), Some(1_234_567_890));
    assert_eq!(amount_of("18446744073709551615"), Some(u64::MAX));
    assert_eq!(amount_of("+18446744073709551615"), Some(u64::MAX));
    assert_eq!(amount_of("000000000000000000000000000001"), Some(1));
}

#[test]
fn amounts_agree_with_the_standard_parser() {
    let samples = [
        "0", "1", "9", "10", "99", "+1", "++1", "+", "-", "-1", "-0", "", " ", " 1", "1 ", "1.0",
        "1e3", "1_000", "0x10", "abc", "12a", "a12", "18446744073709551615",
        "18446744073709551616", "18446744073709551620", "99999999999999999999",
        "184467440737095516150", "٣", "１２", "1\u{0}", "+-1", "1+", "0000", "+0007",
    ];
    for text in samples {
        assert_eq!(amount_of(text), text.parse::<u64>().ok(), "for {:?}", text);
    }
}

#[test]
fn bad_amounts_are_invalid_amount() {
    for text in ["", "+", "-", "-1", " 1", "1 ", "1_000", "ten", "1.5", "１２"] {
        assert_eq!(amount_of(text), None, "for {:?}", text);
    }
    assert_eq!(amount_of("18446744073709551616"), None);
    assert_eq!(amount_of("99999999999999999999999999"), None);
}

#[test]
fn messages_of_the_errors() {
    assert_eq!(BitcoinError::InvalidTransaction.message(), "Invalid transaction format");
    assert_eq!(BitcoinError::InvalidScript.message(), "Invalid script format");
    assert_eq!(BitcoinError::InvalidAmount.message(), "Invalid amount");
    assert_eq!(
        BitcoinError::ParseError(String::from("Unknown command")).message(),
        "Parse error: Unknown command"
    );
    assert_eq!(BitcoinError::ParseError(String::new()).message(), "Parse error: ");
    let error = parse_cli_args(&words(&["send"])).unwrap_err();
    assert_eq!(error.message(), "Parse error: Usage: send <amount> <address>");
}
