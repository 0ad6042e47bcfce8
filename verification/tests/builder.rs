use bitcoin_tx::{LegacyTransaction, LegacyTransactionBuilder, OutPoint, Point, TxInput, TxOutput};

fn an_input(tag: u8) -> TxInput {
    TxInput {
        previous_output: OutPoint { txid: [tag; 32], vout: tag as u32 },
        script_sig: vec![tag],
        sequence: 0xffff_ffff,
    }
}

fn an_output(value: u64) -> TxOutput {
    TxOutput { value, script_pubkey: vec![0x51] }
}

#[test]
fn new_builder_has_the_defaults() {
    let tx = LegacyTransactionBuilder::new().build();
    assert_eq!(tx.version, 1);
    assert!(tx.inputs.is_empty());
    assert!(tx.outputs.is_empty());
    assert_eq!(tx.lock_time, 0);
}

#[test]
fn default_and_builder_agree_with_new() {
    let a = LegacyTransactionBuilder::default().build();
    let b = LegacyTransaction::builder().build();
    let c = LegacyTransactionBuilder::new().build();
    assert_eq!(a, c);
    assert_eq!(b, c);
    let d = LegacyTransactionBuilder::default();
    assert_eq!(d.version, 1);
    assert_eq!(d.lock_time, 0);
    assert!(d.inputs.is_empty());
    assert!(d.outputs.is_empty());
}

#[test]
fn setters_change_one_field() {
    let tx = LegacyTransactionBuilder::new().version(2).build();
    assert_eq!((tx.version, tx.lock_time), (2, 0));
    assert!(tx.inputs.is_empty() && tx.outputs.is_empty());

    let tx = LegacyTransactionBuilder::new().lock_time(99).build();
    assert_eq!((tx.version, tx.lock_time), (1, 99));

    let tx = LegacyTransactionBuilder::new().version(-5).version(3).build();
    assert_eq!(tx.version, 3);
}

#[test]
fn members_are_appended_in_call_order() {
    let tx = LegacyTransactionBuilder::new()
        .add_input(an_input(1))
        .add_input(an_input(2))
        .add_input(an_input(3))
        .add_output(an_output(30))
        .add_output(an_output(10))
        .build();
    assert_eq!(tx.inputs, vec![an_input(1), an_input(2), an_input(3)]);
    assert_eq!(tx.outputs, vec![an_output(30), an_output(10)]);
}

#[test]
fn calls_may_come_in_any_order() {
    let one = LegacyTransactionBuilder::new()
        .version(2)
        .add_input(an_input(1))
        .add_output(an_output(5))
        .lock_time(8)
        .build();
    let other = LegacyTransactionBuilder::new()
        .lock_time(8)
        .add_output(an_output(5))
        .add_input(an_input(1))
        .version(2)
        .build();
    assert_eq!(one, other);
}

#[test]
fn an_empty_transaction_can_be_built() {
    let tx = LegacyTransactionBuilder::new().add_input(an_input(1)).build();
    assert_eq!(tx.inputs.len(), 1);
    assert!(tx.outputs.is_empty());
}

#[test]
fn point_holds_its_coordinates() {
    let p = Point::new(3, -4);
    assert_eq!(p.x, 3);
    assert_eq!(p.y, -4);
    assert_eq!(p, Point { x: 3, y: -4 });
    assert_ne!(p, Point::new(-4, 3));
    let q = Point::new(String::from("a"), String::from("b"));
    assert_eq!(q.clone(), q);
}
