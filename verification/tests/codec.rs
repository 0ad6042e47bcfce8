use bitcoin_tx::{
    BitcoinError, BitcoinSerialize, LegacyTransaction, LegacyTransactionBuilder, OutPoint,
    TxInput, TxOutput,
};

fn input(tag: u8, vout: u32, script: Vec<u8>, sequence: u32) -> TxInput {
    TxInput { previous_output: OutPoint { txid: [tag; 32], vout }, script_sig: script, sequence }
}

fn output(value: u64, script: Vec<u8>) -> TxOutput {
    TxOutput { value, script_pubkey: script }
}

fn sample() -> LegacyTransaction {
    LegacyTransaction::builder()
        .version(2)
        .add_input(input(0xaa, 1, vec![1, 2, 3], 0xffff_fffe))
        .add_input(input(0xbb, 7, vec![], 0))
        .add_output(output(5_000_000_000, vec![0x76, 0xa9]))
        .add_output(output(0, vec![]))
        .add_output(output(u64::MAX, vec![0x51; 300]))
        .lock_time(500_000)
        .build()
}

fn decode(bytes: &[u8]) -> Result<LegacyTransaction, BitcoinError> {
    LegacyTransaction::try_from(bytes)
}

#[test]
fn concrete_scenario_bytes() {
    let tx = LegacyTransaction::builder()
        .version(1)
        .add_input(input(0, 0, vec![], 0xffff_ffff))
        .add_output(output(5_000_000_000, vec![0x51]))
        .lock_time(0)
        .build();
    let mut expected: Vec<u8> = vec![0x01, 0x00, 0x00, 0x00, 0x01, 0x00, 0x00, 0x00];
    expected.extend_from_slice(&[0u8; 32]);
    expected.extend_from_slice(&[0x00, 0x00, 0x00, 0x00]);
    expected.extend_from_slice(&[0x00, 0x00, 0x00, 0x00]);
    expected.extend_from_slice(&[0xff, 0xff, 0xff, 0xff]);
    expected.extend_from_slice(&[0x01, 0x00, 0x00, 0x00]);
    expected.extend_from_slice(&[0x00, 0xf2, 0x05, 0x2a, 0x01, 0x00, 0x00, 0x00]);
    expected.extend_from_slice(&[0x01, 0x00, 0x00, 0x00]);
    expected.extend_from_slice(&[0x51]);
    expected.extend_from_slice(&[0x00, 0x00, 0x00, 0x00]);
    assert_eq!(expected.len(), 73);
    assert_eq!(tx.serialize(), expected);
    assert_eq!(decode(&expected).unwrap(), tx);
}

#[test]
fn empty_transaction_is_sixteen_bytes() {
    let tx = LegacyTransactionBuilder::new().build();
    let bytes = tx.serialize();
    assert_eq!(bytes, vec![1, 0, 0, 0, 0, 0, 0, 0, 0, 0, 0, 0, 0, 0, 0, 0]);
    let back = decode(&bytes).unwrap();
    assert_eq!(back.version, 1);
    assert!(back.inputs.is_empty());
    assert!(back.outputs.is_empty());
    assert_eq!(back.lock_time, 0);
}

#[test]
fn field_layout_of_one_input_and_one_output() {
    let tx = LegacyTransaction::builder()
        .version(0x0403_0201)
        .add_input(input(0x11, 0x0807_0605, vec![0xde, 0xad], 0x0c0b_0a09))
        .add_output(output(0x1817_1615_1413_1211, vec![0xbe, 0xef, 0x00]))
        .lock_time(0x1c1b_1a19)
        .build();
    let bytes = tx.serialize();
    assert_eq!(&bytes[0..4], &[0x01, 0x02, 0x03, 0x04]);
    assert_eq!(&bytes[4..8], &[1, 0, 0, 0]);
    assert_eq!(&bytes[8..40], &[0x11; 32]);
    assert_eq!(&bytes[40..44], &[0x05, 0x06, 0x07, 0x08]);
    assert_eq!(&bytes[44..48], &[2, 0, 0, 0]);
    assert_eq!(&bytes[48..50], &[0xde, 0xad]);
    assert_eq!(&bytes[50..54], &[0x09, 0x0a, 0x0b, 0x0c]);
    assert_eq!(&bytes[54..58], &[1, 0, 0, 0]);
    assert_eq!(&bytes[58..66], &[0x11, 0x12, 0x13, 0x14, 0x15, 0x16, 0x17, 0x18]);
    assert_eq!(&bytes[66..70], &[3, 0, 0, 0]);
    assert_eq!(&bytes[70..73], &[0xbe, 0xef, 0x00]);
    assert_eq!(&bytes[73..77], &[0x19, 0x1a, 0x1b, 0x1c]);
    assert_eq!(bytes.len(), 77);
}

#[test]
fn negative_version_is_twos_complement() {
    let tx = LegacyTransaction::builder().version(-1).build();
    let bytes = tx.serialize();
    assert_eq!(&bytes[0..4], &[0xff, 0xff, 0xff, 0xff]);
    assert_eq!(decode(&bytes).unwrap().version, -1);

    let tx = LegacyTransaction::builder().version(i32::MIN).build();
    let bytes = tx.serialize();
    assert_eq!(&bytes[0..4], &[0x00, 0x00, 0x00, 0x80]);
    assert_eq!(decode(&bytes).unwrap().version, i32::MIN);

    let tx = LegacyTransaction::builder().version(i32::MAX).build();
    let bytes = tx.serialize();
    assert_eq!(&bytes[0..4], &[0xff, 0xff, 0xff, 0x7f]);
    assert_eq!(decode(&bytes).unwrap().version, i32::MAX);
}

#[test]
fn value_is_unsigned_and_not_truncated() {
    let tx = LegacyTransaction::builder().add_output(output(u64::MAX, vec![])).build();
    let bytes = tx.serialize();
    assert_eq!(&bytes[12..20], &[0xff; 8]);
    assert_eq!(decode(&bytes).unwrap().outputs[0].value, u64::MAX);

    let tx = LegacyTransaction::builder().add_output(output(1 << 63, vec![])).build();
    assert_eq!(decode(&tx.serialize()).unwrap().outputs[0].value, 1 << 63);
}

#[test]
fn round_trip_sample() {
    let tx = sample();
    assert!(tx.is_serializable());
    let bytes = tx.serialize();
    assert_eq!(decode(&bytes).unwrap(), tx);
}

#[test]
fn round_trip_many_shapes() {
    for n_in in 0..5usize {
        for n_out in 0..5usize {
            let mut builder = LegacyTransaction::builder()
                .version(n_in as i32 - 2)
                .lock_time((n_out * 1000) as u32);
            for i in 0..n_in {
                let script: Vec<u8> = (0..(i * 37) as u32).map(|b| (b % 251) as u8).collect();
                builder = builder.add_input(input(i as u8, i as u32 * 3, script, !(i as u32)));
            }
            for j in 0..n_out {
                let script: Vec<u8> = (0..(j * 91) as u32).map(|b| (b % 13) as u8).collect();
                builder = builder.add_output(output((j as u64) << 40, script));
            }
            let tx = builder.build();
            let bytes = tx.serialize();
            let back = decode(&bytes).unwrap();
            assert_eq!(back, tx);
            assert_eq!(back.inputs.len(), n_in);
            assert_eq!(back.outputs.len(), n_out);
        }
    }
}

#[test]
fn serialize_twice_gives_same_bytes() {
    let tx = sample();
    assert_eq!(tx.serialize(), tx.serialize());
    assert_eq!(tx.clone().serialize(), tx.serialize());
    assert_eq!(sample().serialize(), tx.serialize());
}

#[test]
fn buffers_shorter_than_sixteen_bytes_are_rejected() {
    let bytes = sample().serialize();
    for len in 0..16usize {
        assert!(matches!(decode(&bytes[..len]), Err(BitcoinError::InvalidTransaction)));
        assert!(matches!(decode(&vec![0u8; len]), Err(BitcoinError::InvalidTransaction)));
    }
    assert!(decode(&[0u8; 16]).is_ok());
}

#[test]
fn declared_input_without_bytes_is_rejected() {
    let bytes: Vec<u8> = vec![1, 0, 0, 0, 1, 0, 0, 0];
    assert!(matches!(decode(&bytes), Err(BitcoinError::InvalidTransaction)));
    // long enough for the fixed fields, yet the declared input is missing
    let bytes: Vec<u8> = vec![1, 0, 0, 0, 1, 0, 0, 0, 0, 0, 0, 0, 0, 0, 0, 0];
    assert!(matches!(decode(&bytes), Err(BitcoinError::InvalidTransaction)));
}

#[test]
fn script_longer_than_the_buffer_is_rejected() {
    let tx = LegacyTransaction::builder().add_input(input(9, 0, vec![1, 2, 3, 4], 5)).build();
    let mut bytes = tx.serialize();
    assert_eq!(bytes[44], 4);
    bytes[44] = 200;
    assert!(matches!(decode(&bytes), Err(BitcoinError::InvalidTransaction)));
    bytes[44] = 0;
    bytes[47] = 0xff;
    assert!(matches!(decode(&bytes), Err(BitcoinError::InvalidTransaction)));

    let tx = LegacyTransaction::builder().add_output(output(1, vec![7, 7])).build();
    let mut bytes = tx.serialize();
    assert_eq!(bytes[20], 2);
    bytes[20] = 7;
    assert!(matches!(decode(&bytes), Err(BitcoinError::InvalidTransaction)));
}

#[test]
fn huge_declared_count_is_rejected() {
    let mut bytes: Vec<u8> = vec![1, 0, 0, 0, 0xff, 0xff, 0xff, 0xff];
    bytes.extend_from_slice(&[0u8; 100]);
    assert!(matches!(decode(&bytes), Err(BitcoinError::InvalidTransaction)));
    let mut bytes: Vec<u8> = vec![1, 0, 0, 0, 0, 0, 0, 0, 0xff, 0xff, 0xff, 0xff];
    bytes.extend_from_slice(&[0u8; 100]);
    assert!(matches!(decode(&bytes), Err(BitcoinError::InvalidTransaction)));
}

#[test]
fn every_truncation_is_rejected() {
    let bytes = sample().serialize();
    for len in 0..bytes.len() {
        assert!(
            matches!(decode(&bytes[..len]), Err(BitcoinError::InvalidTransaction)),
            "accepted a record cut to {} bytes",
            len
        );
    }
}

#[test]
fn missing_lock_time_is_rejected() {
    let tx = LegacyTransaction::builder().add_input(input(1, 2, vec![3], 4)).build();
    let bytes = tx.serialize();
    assert!(matches!(decode(&bytes[..bytes.len() - 1]), Err(BitcoinError::InvalidTransaction)));
    assert!(matches!(decode(&bytes[..bytes.len() - 4]), Err(BitcoinError::InvalidTransaction)));
}

#[test]
fn trailing_bytes_are_ignored() {
    let tx = sample();
    let mut bytes = tx.serialize();
    bytes.extend_from_slice(&[0xde, 0xad, 0xbe, 0xef, 0x00]);
    assert_eq!(decode(&bytes).unwrap(), tx);
}

#[test]
fn empty_scripts_and_empty_lists_round_trip() {
    let tx = LegacyTransaction::builder().add_input(input(3, 0, vec![], 0)).build();
    assert_eq!(decode(&tx.serialize()).unwrap(), tx);
    let tx = LegacyTransaction::builder().add_output(output(9, vec![])).build();
    assert_eq!(decode(&tx.serialize()).unwrap(), tx);
    let tx = LegacyTransaction::builder().version(7).lock_time(u32::MAX).build();
    assert_eq!(decode(&tx.serialize()).unwrap(), tx);
}

#[test]
fn order_of_inputs_and_outputs_is_kept() {
    let a = input(0x0a, 1, vec![0xa], 1);
    let b = input(0x0b, 2, vec![0xb, 0xb], 2);
    let c = input(0x0c, 3, vec![0xc, 0xc, 0xc], 3);
    let x = output(30, vec![3]);
    let y = output(10, vec![1]);
    let z = output(20, vec![2]);
    let tx = LegacyTransaction::builder()
        .add_input(a.clone())
        .add_output(x.clone())
        .add_input(b.clone())
        .add_input(c.clone())
        .add_output(y.clone())
        .add_output(z.clone())
        .build();
    let back = decode(&tx.serialize()).unwrap();
    assert_eq!(back.inputs, vec![a, b, c]);
    assert_eq!(back.outputs, vec![x, y, z]);
}

#[test]
fn equal_members_are_not_merged() {
    let a = input(1, 1, vec![1], 1);
    let o = output(1, vec![1]);
    let tx = LegacyTransaction::builder()
        .add_input(a.clone())
        .add_input(a.clone())
        .add_output(o.clone())
        .add_output(o.clone())
        .add_output(o.clone())
        .build();
    let back = decode(&tx.serialize()).unwrap();
    assert_eq!(back.inputs, vec![a.clone(), a]);
    assert_eq!(back.outputs, vec![o.clone(), o.clone(), o]);
}

#[test]
fn different_transactions_have_different_bytes() {
    let base = sample();
    let mut other = sample();
    other.inputs.swap(0, 1);
    assert_ne!(base, other);
    assert_ne!(base.serialize(), other.serialize());
    let mut other = sample();
    other.outputs[0].script_pubkey[0] ^= 1;
    assert_ne!(base.serialize(), other.serialize());
}

#[test]
fn equality_is_by_value() {
    assert_eq!(sample(), sample());
    let mut other = sample();
    other.lock_time += 1;
    assert_ne!(sample(), other);
    let mut other = sample();
    other.inputs[1].previous_output.txid[31] = 0;
    assert_ne!(sample(), other);
    let mut other = sample();
    other.inputs[0].script_sig.push(0);
    assert_ne!(sample(), other);
    let mut other = sample();
    other.outputs.pop();
    assert_ne!(sample(), other);
    assert_eq!(input(1, 2, vec![3], 4), input(1, 2, vec![3], 4));
    assert_ne!(input(1, 2, vec![3], 4), input(1, 2, vec![3], 5));
    assert_ne!(input(1, 2, vec![3], 4), input(1, 3, vec![3], 4));
    assert_eq!(output(1, vec![2]), output(1, vec![2]));
    assert_ne!(output(1, vec![2]), output(2, vec![2]));
    assert_ne!(output(1, vec![2]), output(1, vec![2, 2]));
    assert_eq!(OutPoint { txid: [5; 32], vout: 1 }, OutPoint { txid: [5; 32], vout: 1 });
    assert_ne!(OutPoint { txid: [5; 32], vout: 1 }, OutPoint { txid: [6; 32], vout: 1 });
}

#[test]
fn built_transactions_are_serializable() {
    assert!(sample().is_serializable());
    assert!(LegacyTransactionBuilder::new().build().is_serializable());
}
