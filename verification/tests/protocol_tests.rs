use psbt_batch::codec::{decode_from_hex, encode_to_hex};
use psbt_batch::coordinator::{
    process_received, select_next_hop, Action, BatchRequest, ProtocolError,
};
use psbt_batch::transaction::{
    Contribution, InputMeta, NodeId, OutputMeta, Transaction, TxInput, TxOutput,
};

fn node(key: u64) -> NodeId {
    NodeId { key }
}

fn origin_tx(owner: NodeId, txid: u64, tag: u64, value: u64) -> Transaction {
    Transaction {
        input_metas: vec![InputMeta { owner, sig: 0 }],
        inputs: vec![TxInput { txid }],
        output_metas: vec![OutputMeta { tag }],
        outputs: vec![TxOutput { value }],
    }
}

fn contribution(txid: u64, tag: u64, value: u64) -> Contribution {
    Contribution {
        inputs: vec![TxInput { txid }],
        output_metas: vec![OutputMeta { tag }],
        outputs: vec![TxOutput { value }],
    }
}

fn request(
    participants: Vec<NodeId>,
    hops: Vec<NodeId>,
    tx: &Transaction,
    sign: bool,
) -> BatchRequest {
    BatchRequest {
        uniform_amount: 0,
        fee_per_participant: 10,
        max_participants: 3,
        participants,
        hops,
        psbt_hex: encode_to_hex(tx),
        sign,
    }
}

#[test]
fn three_party_batch_collects_signs_and_finalizes() {
    let a = node(1);
    let b = node(2);
    let c = node(3);

    // Node A originates: participants=[A], hops=[], collecting; sends to B.
    let tx0 = origin_tx(a, 11, 1, 100);
    let req0 = request(vec![a], vec![], &tx0, false);

    // B joins: quota not met (2 < 3); C is unvisited and not the
    // predecessor, so B forwards there, recording itself on the path.
    let r1 = process_received(&req0, b, a, &vec![a, c], Some(contribution(22, 2, 200)), 0);
    let req1 = match r1 {
        Ok(Action::Forward { next, request }) => {
            assert_eq!(next, c);
            assert_eq!(request.participants, vec![a, b]);
            assert_eq!(request.hops, vec![b]);
            assert!(!request.sign);
            assert_eq!(request.uniform_amount, 0);
            assert_eq!(request.fee_per_participant, 10);
            assert_eq!(request.max_participants, 3);
            request
        },
        _ => panic!("B should forward to C"),
    };

    // C joins: quota met (3 >= 3); the shuffle runs, C signs its own
    // inputs and drops itself, then pops B off the path and forwards.
    let r2 = process_received(&req1, c, b, &vec![b], Some(contribution(33, 3, 300)), 73);
    let req2 = match r2 {
        Ok(Action::Forward { next, request }) => {
            assert_eq!(next, b);
            assert_eq!(request.participants, vec![a, b]);
            assert_eq!(request.hops, Vec::<NodeId>::new());
            assert!(request.sign);
            request
        },
        _ => panic!("C should forward to B in the signing phase"),
    };

    // B signs and drops itself; the path is empty but A still owes a
    // signature, so B forwards to A rather than finalizing prematurely.
    let r3 = process_received(&req2, b, c, &vec![a, c], None, 62);
    let req3 = match r3 {
        Ok(Action::Forward { next, request }) => {
            assert_eq!(next, a);
            assert_eq!(request.participants, vec![a]);
            assert_eq!(request.hops, Vec::<NodeId>::new());
            assert!(request.sign);
            request
        },
        _ => panic!("B should forward once more to A"),
    };

    // A signs and drops itself: nobody owes a signature and the path is
    // consumed, so the batch finalizes.
    let r4 = process_received(&req3, a, b, &vec![b], None, 41);
    let final_hex = match r4 {
        Ok(Action::Finalize { psbt_hex }) => psbt_hex,
        _ => panic!("A should finalize"),
    };

    let t = decode_from_hex(&final_hex).expect("the finalized transaction decodes");
    assert_eq!(t.input_metas.len(), 3);
    assert_eq!(t.inputs.len(), 3);
    assert_eq!(t.output_metas.len(), 3);
    assert_eq!(t.outputs.len(), 3);
    let mut pairs: Vec<(u64, u64, u64)> = t
        .input_metas
        .iter()
        .zip(t.inputs.iter())
        .map(|(m, r)| (m.owner.key, m.sig, r.txid))
        .collect();
    pairs.sort();
    assert_eq!(pairs, vec![(1, 41, 11), (2, 62, 22), (3, 73, 33)]);
    let mut values: Vec<u64> = t.outputs.iter().map(|o| o.value).collect();
    values.sort();
    assert_eq!(values, vec![100, 200, 300]);
}

#[test]
fn funding_failure_declines_to_join() {
    let a = node(1);
    let b = node(2);
    let tx0 = origin_tx(a, 11, 1, 100);
    let req = request(vec![a], vec![], &tx0, false);
    let r = process_received(&req, b, a, &vec![a, node(3)], None, 0);
    assert!(matches!(r, Err(ProtocolError::Funding)));
}

#[test]
fn no_open_channels_is_a_routing_failure() {
    let a = node(1);
    let b = node(2);
    let tx0 = origin_tx(a, 11, 1, 100);
    let req = request(vec![a], vec![], &tx0, false);
    let r = process_received(&req, b, a, &vec![], Some(contribution(22, 2, 200)), 0);
    assert!(matches!(r, Err(ProtocolError::Routing)));
}

#[test]
fn malformed_transaction_is_a_parse_failure() {
    let a = node(1);
    let b = node(2);
    let req = BatchRequest {
        uniform_amount: 0,
        fee_per_participant: 10,
        max_participants: 3,
        participants: vec![a],
        hops: vec![],
        psbt_hex: "not hex".to_string(),
        sign: false,
    };
    let r = process_received(&req, b, a, &vec![a], Some(contribution(22, 2, 200)), 0);
    assert!(matches!(r, Err(ProtocolError::Parse)));
}

#[test]
fn missing_key_material_is_a_signing_failure() {
    let a = node(1);
    let b = node(2);
    let mut tx = origin_tx(a, 11, 1, 100);
    tx.append_contribution(b, &contribution(22, 2, 200));
    let req = request(vec![a, b], vec![a], &tx, true);
    let r = process_received(&req, b, a, &vec![a], None, 0);
    assert!(matches!(r, Err(ProtocolError::Signing)));
}

#[test]
fn owing_without_own_inputs_is_a_signing_failure() {
    let a = node(1);
    let b = node(2);
    let tx = origin_tx(a, 11, 1, 100);
    // b is listed as owing a signature but contributed no input
    let req = request(vec![a, b], vec![a], &tx, true);
    let r = process_received(&req, b, a, &vec![a], None, 62);
    assert!(matches!(r, Err(ProtocolError::Signing)));
}

#[test]
fn unreachable_signer_is_delegated_and_relisted() {
    let a = node(1);
    let c = node(3);
    let d = node(4);
    // c already signed: it is no longer a participant. The popped next
    // signer d is not directly connected, so the message is delegated to
    // the connected participant a, and d is listed again as still owing.
    let tx = origin_tx(a, 11, 1, 100);
    let req = request(vec![a], vec![d], &tx, true);
    let r = process_received(&req, c, a, &vec![a], None, 0);
    match r {
        Ok(Action::Forward { next, request }) => {
            assert_eq!(next, a);
            assert_eq!(request.participants, vec![a, d]);
            assert_eq!(request.hops, Vec::<NodeId>::new());
            assert!(request.sign);
        },
        _ => panic!("the message should be delegated to a"),
    }
}

#[test]
fn signing_stalls_as_routing_failure_when_nobody_is_reachable() {
    let a = node(1);
    let c = node(3);
    let d = node(4);
    let tx = origin_tx(a, 11, 1, 100);
    let req = request(vec![a], vec![d], &tx, true);
    // no channel to the next signer d, and no participant reachable either
    let r = process_received(&req, c, a, &vec![node(9)], None, 0);
    assert!(matches!(r, Err(ProtocolError::Routing)));
}

#[test]
fn next_hop_prefers_a_fresh_peer() {
    let a = node(1);
    let b = node(2);
    let c = node(3);
    let r = select_next_hop(&vec![a, c], &vec![a, b], &vec![a], b);
    assert_eq!(r, Some(c));
}

#[test]
fn next_hop_avoids_the_most_recent_hop() {
    let a = node(1);
    let b = node(2);
    let c = node(3);
    // c is fresh but is the most recent hop; b is taken; fall back to the
    // first peer that is not the sender a
    let r = select_next_hop(&vec![c, b], &vec![b], &vec![c], a);
    assert_eq!(r, Some(c));
}

#[test]
fn lone_channel_is_used_even_when_visited() {
    let a = node(1);
    let b = node(2);
    let r = select_next_hop(&vec![a], &vec![a, b], &vec![a], a);
    assert_eq!(r, Some(a));
}

#[test]
fn several_visited_channels_fall_back_to_a_non_sender() {
    let a = node(1);
    let b = node(2);
    let c = node(3);
    let r = select_next_hop(&vec![a, c], &vec![a, b, c], &vec![c], a);
    assert_eq!(r, Some(c));
}

#[test]
fn quota_counts_the_joining_node_itself() {
    // with a quota of two, the second joiner transitions at once
    let a = node(1);
    let b = node(2);
    let tx0 = origin_tx(a, 11, 1, 100);
    let mut req = request(vec![a], vec![], &tx0, false);
    req.max_participants = 2;
    let r = process_received(&req, b, a, &vec![a], Some(contribution(22, 2, 200)), 62);
    match r {
        Ok(Action::Forward { next, request }) => {
            assert_eq!(next, a);
            assert!(request.sign);
            assert_eq!(request.participants, vec![a]);
        },
        _ => panic!("the quota of two should transition at B"),
    }
}
