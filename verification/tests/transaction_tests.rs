use psbt_batch::shuffle::shuffle_transaction;
use psbt_batch::transaction::{
    Contribution, InputMeta, NodeId, OutputMeta, Transaction, TxInput, TxOutput,
};

fn node(key: u64) -> NodeId {
    NodeId { key }
}

fn five_pair_tx() -> Transaction {
    let mut t = Transaction {
        input_metas: vec![],
        inputs: vec![],
        output_metas: vec![],
        outputs: vec![],
    };
    for k in 0..5u64 {
        t.input_metas.push(InputMeta { owner: node(k), sig: 0 });
        t.inputs.push(TxInput { txid: 100 + k });
        t.output_metas.push(OutputMeta { tag: k });
        t.outputs.push(TxOutput { value: 1000 + k });
    }
    t
}

#[test]
fn shuffle_keeps_the_pair_multisets() {
    let original = five_pair_tx();
    let mut t = original.clone();
    shuffle_transaction(&mut t);

    assert_eq!(t.input_metas.len(), t.inputs.len());
    assert_eq!(t.output_metas.len(), t.outputs.len());

    let mut in_pairs: Vec<(u64, u64, u64)> = t
        .input_metas
        .iter()
        .zip(t.inputs.iter())
        .map(|(m, r)| (m.owner.key, m.sig, r.txid))
        .collect();
    let mut in_expected: Vec<(u64, u64, u64)> = original
        .input_metas
        .iter()
        .zip(original.inputs.iter())
        .map(|(m, r)| (m.owner.key, m.sig, r.txid))
        .collect();
    in_pairs.sort();
    in_expected.sort();
    assert_eq!(in_pairs, in_expected);

    let mut out_pairs: Vec<(u64, u64)> = t
        .output_metas
        .iter()
        .zip(t.outputs.iter())
        .map(|(m, r)| (m.tag, r.value))
        .collect();
    let mut out_expected: Vec<(u64, u64)> = original
        .output_metas
        .iter()
        .zip(original.outputs.iter())
        .map(|(m, r)| (m.tag, r.value))
        .collect();
    out_pairs.sort();
    out_expected.sort();
    assert_eq!(out_pairs, out_expected);
}

#[test]
fn contribution_is_appended_aligned_and_unsigned() {
    let mut t = Transaction {
        input_metas: vec![InputMeta { owner: node(1), sig: 5 }],
        inputs: vec![TxInput { txid: 11 }],
        output_metas: vec![OutputMeta { tag: 1 }],
        outputs: vec![TxOutput { value: 100 }],
    };
    let c = Contribution {
        inputs: vec![TxInput { txid: 22 }, TxInput { txid: 23 }],
        output_metas: vec![OutputMeta { tag: 2 }],
        outputs: vec![TxOutput { value: 200 }],
    };
    t.append_contribution(node(2), &c);
    assert_eq!(t.input_metas.len(), 3);
    assert_eq!(t.inputs.len(), 3);
    assert_eq!(t.input_metas[1], InputMeta { owner: node(2), sig: 0 });
    assert_eq!(t.input_metas[2], InputMeta { owner: node(2), sig: 0 });
    assert_eq!(t.inputs[1], TxInput { txid: 22 });
    assert_eq!(t.inputs[2], TxInput { txid: 23 });
    assert_eq!(t.output_metas.len(), 2);
    assert_eq!(t.outputs.len(), 2);
    assert_eq!(t.outputs[1], TxOutput { value: 200 });
}

#[test]
fn signing_marks_exactly_the_own_inputs() {
    let mut t = Transaction {
        input_metas: vec![
            InputMeta { owner: node(1), sig: 0 },
            InputMeta { owner: node(2), sig: 0 },
            InputMeta { owner: node(1), sig: 0 },
        ],
        inputs: vec![TxInput { txid: 1 }, TxInput { txid: 2 }, TxInput { txid: 3 }],
        output_metas: vec![],
        outputs: vec![],
    };
    assert!(t.sign_own_inputs(node(1), 77));
    assert_eq!(t.input_metas[0].sig, 77);
    assert_eq!(t.input_metas[1].sig, 0);
    assert_eq!(t.input_metas[2].sig, 77);
    assert_eq!(t.inputs.len(), 3);
}

#[test]
fn signing_without_key_material_fails_unchanged() {
    let mut t = Transaction {
        input_metas: vec![InputMeta { owner: node(1), sig: 0 }],
        inputs: vec![TxInput { txid: 1 }],
        output_metas: vec![],
        outputs: vec![],
    };
    assert!(!t.sign_own_inputs(node(1), 0));
    assert_eq!(t.input_metas[0].sig, 0);
}

#[test]
fn signing_with_no_own_inputs_fails_unchanged() {
    let mut t = Transaction {
        input_metas: vec![InputMeta { owner: node(1), sig: 0 }],
        inputs: vec![TxInput { txid: 1 }],
        output_metas: vec![],
        outputs: vec![],
    };
    assert!(!t.sign_own_inputs(node(9), 77));
    assert_eq!(t.input_metas[0].sig, 0);
}
