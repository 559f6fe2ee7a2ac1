use psbt_batch::codec::{decode_from_hex, encode_to_hex};
use psbt_batch::transaction::{InputMeta, NodeId, OutputMeta, Transaction, TxInput, TxOutput};

fn sample_tx() -> Transaction {
    Transaction {
        input_metas: vec![
            InputMeta { owner: NodeId { key: 7 }, sig: 0 },
            InputMeta { owner: NodeId { key: 8 }, sig: 41 },
        ],
        inputs: vec![TxInput { txid: 9 }, TxInput { txid: 10 }],
        output_metas: vec![OutputMeta { tag: 3 }],
        outputs: vec![TxOutput { value: 500 }],
    }
}

#[test]
fn empty_transaction_encodes_to_zero_counts() {
    let t = Transaction {
        input_metas: vec![],
        inputs: vec![],
        output_metas: vec![],
        outputs: vec![],
    };
    let hex = encode_to_hex(&t);
    // two zero 64-bit counts, little endian, in lowercase hex
    assert_eq!(hex, "00000000000000000000000000000000");
}

#[test]
fn known_transaction_encodes_exactly() {
    let t = Transaction {
        input_metas: vec![InputMeta { owner: NodeId { key: 7 }, sig: 0 }],
        inputs: vec![TxInput { txid: 9 }],
        output_metas: vec![OutputMeta { tag: 3 }],
        outputs: vec![TxOutput { value: 500 }],
    };
    let hex = encode_to_hex(&t);
    // one input pair and one output pair, then owner 7, no signature yet,
    // txid 9, output tag 3 and value 500, each a little-endian word
    let mut expected = String::new();
    expected.push_str("0100000000000000");
    expected.push_str("0100000000000000");
    expected.push_str("0700000000000000");
    expected.push_str("0000000000000000");
    expected.push_str("0900000000000000");
    expected.push_str("0300000000000000");
    expected.push_str("f401000000000000");
    assert_eq!(hex, expected);
}

#[test]
fn round_trip_returns_the_original() {
    let t = sample_tx();
    let hex = encode_to_hex(&t);
    let back = decode_from_hex(&hex).expect("a well-formed encoding decodes");
    assert_eq!(back, t);
}

#[test]
fn round_trip_of_empty_transaction() {
    let t = Transaction {
        input_metas: vec![],
        inputs: vec![],
        output_metas: vec![],
        outputs: vec![],
    };
    let hex = encode_to_hex(&t);
    let back = decode_from_hex(&hex).expect("a well-formed encoding decodes");
    assert_eq!(back, t);
}

#[test]
fn uppercase_hex_also_decodes() {
    let t = sample_tx();
    let hex = encode_to_hex(&t).to_uppercase();
    let back = decode_from_hex(&hex).expect("hex digits of either case decode");
    assert_eq!(back, t);
}

#[test]
fn non_hex_input_is_rejected() {
    assert!(decode_from_hex("zz").is_none());
}

#[test]
fn odd_length_input_is_rejected() {
    assert!(decode_from_hex("012").is_none());
}

#[test]
fn truncated_word_is_rejected() {
    // three bytes cannot form whole 64-bit words
    assert!(decode_from_hex("010203").is_none());
}

#[test]
fn empty_string_is_rejected() {
    // no room for the two counts
    assert!(decode_from_hex("").is_none());
}

#[test]
fn wrong_counts_are_rejected() {
    // counts announce one input pair and one output pair, but no words follow
    let hex = "01000000000000000100000000000000";
    assert!(decode_from_hex(hex).is_none());
}
