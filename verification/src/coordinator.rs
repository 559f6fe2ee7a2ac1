//! The batch coordinator: one call per received protocol message. In the
//! collecting phase a node joins the batch (appending its wallet's
//! contribution), checks the participant quota, and either forwards the
//! request to a fresh peer or — once the quota is met — shuffles the
//! transaction and falls into the signing phase. In the signing phase a
//! node records its own signatures, retraces the recorded path backwards,
//! and finalizes once nobody owes a signature and the path is consumed.

use vstd::prelude::*;

use crate::codec::{decode_from_hex, encode_to_hex, tx_hex, tx_of_hex};
use crate::shuffle::shuffle_transaction;
use crate::transaction::{Contribution, InputMeta, NodeId, Transaction, TxView};

verus! {

/// The protocol message payload, as it travels between peers.
#[derive(Clone, PartialEq, Eq, Debug)]
pub struct BatchRequest {
    /// Target per-participant output amount; zero when none is requested.
    pub uniform_amount: u64,
    /// Fee contribution each joining participant must cover.
    pub fee_per_participant: u64,
    /// Participant count that triggers the collecting-to-signing transition.
    pub max_participants: u8,
    /// Peers that joined; during signing, peers that still owe a signature.
    pub participants: Vec<NodeId>,
    /// The forwarding path, pushed while collecting, popped while signing.
    pub hops: Vec<NodeId>,
    /// The transaction under construction, transport encoded.
    pub psbt_hex: String,
    /// False while collecting, true once the signing phase has begun.
    pub sign: bool,
}

/// What the coordinator asks its caller to do with a processed message.
pub enum Action {
    /// Send the updated request to this peer.
    Forward { next: NodeId, request: BatchRequest },
    /// The batch is complete: store the encoded transaction for broadcast.
    Finalize { psbt_hex: String },
}

/// Why processing one message was abandoned. No failure is fatal to the
/// node: the message is dropped and the batch stalls or dies upstream.
#[derive(Clone, Copy, PartialEq, Eq, Structural, Debug)]
pub enum ProtocolError {
    /// The transported transaction does not decode.
    Parse,
    /// The wallet cannot cover the requested contribution; the node
    /// declines to join and does not forward.
    Funding,
    /// The wallet cannot produce a required signature.
    Signing,
    /// No eligible peer to forward to (including no open channels at all).
    Routing,
}

/// The mathematical counterpart of an [`Action`], over sequence models.
pub enum SpecAction {
    Forward {
        next: NodeId,
        participants: Seq<NodeId>,
        hops: Seq<NodeId>,
        tx: TxView,
        sign: bool,
    },
    Finalize { tx: TxView },
}

// ---------------------------------------------------------------------
// Routing choices.
// ---------------------------------------------------------------------
/// The most recently recorded hop, if any.
pub open spec fn last_hop(hops: Seq<NodeId>) -> Option<NodeId> {
    if hops.len() == 0 {
        None
    } else {
        Some(hops.last())
    }
}

/// The first channel peer that is neither a participant nor the most
/// recent hop.
pub open spec fn first_fresh_peer(
    channels: Seq<NodeId>,
    participants: Seq<NodeId>,
    last: Option<NodeId>,
) -> Option<NodeId>
    decreases channels.len(),
{
    if channels.len() == 0 {
        None
    } else if !participants.contains(channels[0]) && last != Some(channels[0]) {
        Some(channels[0])
    } else {
        first_fresh_peer(channels.drop_first(), participants, last)
    }
}

/// The first channel peer other than `avoid`.
pub open spec fn first_other_peer(channels: Seq<NodeId>, avoid: NodeId) -> Option<NodeId>
    decreases channels.len(),
{
    if channels.len() == 0 {
        None
    } else if channels[0] != avoid {
        Some(channels[0])
    } else {
        first_other_peer(channels.drop_first(), avoid)
    }
}

/// Collecting-phase next-hop choice: prefer a peer that is neither a
/// participant nor the most recent hop; failing that, a lone channel is
/// used regardless, and otherwise the first peer that is not the sender
/// of this message. None means there is nowhere to route.
pub open spec fn spec_next_hop(
    channels: Seq<NodeId>,
    participants: Seq<NodeId>,
    hops: Seq<NodeId>,
    prev: NodeId,
) -> Option<NodeId> {
    match first_fresh_peer(channels, participants, last_hop(hops)) {
        Some(p) => Some(p),
        None => if channels.len() == 1 {
            Some(channels[0])
        } else {
            first_other_peer(channels, prev)
        },
    }
}

/// The last-listed participant reachable over a direct channel: the peer a
/// signing-phase message is delegated to when the popped signer is not
/// directly connected, or when the path is consumed but signatures remain.
pub open spec fn last_peer_with_channel(
    participants: Seq<NodeId>,
    channels: Seq<NodeId>,
) -> Option<NodeId>
    decreases participants.len(),
{
    if participants.len() == 0 {
        None
    } else if channels.contains(participants.last()) {
        Some(participants.last())
    } else {
        last_peer_with_channel(participants.drop_last(), channels)
    }
}

/// `s` with every occurrence of `x` removed, order otherwise kept.
pub open spec fn remove_node(s: Seq<NodeId>, x: NodeId) -> Seq<NodeId>
    decreases s.len(),
{
    if s.len() == 0 {
        Seq::empty()
    } else if s.last() == x {
        remove_node(s.drop_last(), x)
    } else {
        remove_node(s.drop_last(), x).push(s.last())
    }
}

// ---------------------------------------------------------------------
// The signing-phase step, as a function from state to outcome.
// ---------------------------------------------------------------------
/// One signing-phase step at node `me`: sign own inputs if a signature is
/// owed, then pop the path and route — directly to the popped signer, or
/// delegated to a connected participant (re-listing the popped signer) —
/// and finalize only once the path is consumed and nobody owes a
/// signature.
pub open spec fn signing_step(
    tx: TxView,
    participants: Seq<NodeId>,
    hops: Seq<NodeId>,
    me: NodeId,
    material: u64,
    channels: Seq<NodeId>,
) -> Result<SpecAction, ProtocolError> {
    let owes = participants.contains(me);
    if owes && !(material != 0 && tx.owes_signature(me)) {
        Result::Err(ProtocolError::Signing)
    } else {
        let tx2 = if owes {
            tx.signed_for(me, material)
        } else {
            tx
        };
        let parts2 = if owes {
            remove_node(participants, me)
        } else {
            participants
        };
        if hops.len() > 0 {
            let next_signer = hops.last();
            let hops2 = hops.drop_last();
            if channels.contains(next_signer) {
                Result::Ok(
                    SpecAction::Forward {
                        next: next_signer,
                        participants: parts2,
                        hops: hops2,
                        tx: tx2,
                        sign: true,
                    },
                )
            } else {
                match last_peer_with_channel(parts2, channels) {
                    Some(alt) => Result::Ok(
                        SpecAction::Forward {
                            next: alt,
                            participants: if parts2.contains(next_signer) {
                                parts2
                            } else {
                                parts2.push(next_signer)
                            },
                            hops: hops2,
                            tx: tx2,
                            sign: true,
                        },
                    ),
                    None => Result::Err(ProtocolError::Routing),
                }
            }
        } else {
            if parts2.len() == 0 {
                Result::Ok(SpecAction::Finalize { tx: tx2 })
            } else {
                match last_peer_with_channel(parts2, channels) {
                    Some(alt) => Result::Ok(
                        SpecAction::Forward {
                            next: alt,
                            participants: parts2,
                            hops,
                            tx: tx2,
                            sign: true,
                        },
                    ),
                    None => Result::Err(ProtocolError::Routing),
                }
            }
        }
    }
}

/// Signing-phase progress: every forward that follows a non-empty path
/// pops exactly one hop off it, matching one collecting-phase push, and a
/// batch finalizes only when the path is consumed and nobody owes a
/// signature any more. Along a retraced path the pops therefore equal the
/// pushes that recorded it.
pub proof fn lemma_signing_step_progress(
    tx: TxView,
    participants: Seq<NodeId>,
    hops: Seq<NodeId>,
    me: NodeId,
    material: u64,
    channels: Seq<NodeId>,
)
    ensures
        signing_step(tx, participants, hops, me, material, channels) matches Result::Ok(
            SpecAction::Forward { hops: h2, .. },
        ) ==> (hops.len() > 0 && h2.len() == hops.len() - 1) || (hops.len() == 0 && h2
            == hops),
        signing_step(tx, participants, hops, me, material, channels) matches Result::Ok(
            SpecAction::Finalize { .. },
        ) ==> hops.len() == 0 && (if participants.contains(me) {
            remove_node(participants, me)
        } else {
            participants
        }).len() == 0,
{
}

/// One state of an in-flight signing-phase message: its transaction, the
/// participants still owing signatures, and the remaining path.
pub struct RelayState {
    pub tx: TxView,
    pub participants: Seq<NodeId>,
    pub hops: Seq<NodeId>,
}

/// A run of successful signing-phase relays: each state is carried into
/// the next by [`signing_step`] at node `mes[i]`, with that node's key
/// material and open channels, the step forwarding to `nexts[i]` rather
/// than failing or finalizing.
pub open spec fn signing_run(
    states: Seq<RelayState>,
    mes: Seq<NodeId>,
    nexts: Seq<NodeId>,
    materials: Seq<u64>,
    channel_sets: Seq<Seq<NodeId>>,
) -> bool {
    &&& states.len() == mes.len() + 1
    &&& nexts.len() == mes.len()
    &&& materials.len() == mes.len()
    &&& channel_sets.len() == mes.len()
    &&& forall|i: int|
        0 <= i < mes.len() ==> #[trigger] signing_step(
            states[i].tx,
            states[i].participants,
            states[i].hops,
            mes[i],
            materials[i],
            channel_sets[i],
        ) == Result::<SpecAction, ProtocolError>::Ok(
            SpecAction::Forward {
                next: nexts[i],
                participants: states[i + 1].participants,
                hops: states[i + 1].hops,
                tx: states[i + 1].tx,
                sign: true,
            },
        )
}

/// Retracing accounting: along any run of signing-phase relays the path
/// shrinks by exactly one hop per relay until it is consumed, and then
/// stays consumed. The pops of the signing phase therefore equal the
/// pushes of the collecting phase that recorded the path, and the path is
/// consumed after exactly as many relays as it has hops.
pub proof fn lemma_retrace_pops_equal_pushes(
    states: Seq<RelayState>,
    mes: Seq<NodeId>,
    nexts: Seq<NodeId>,
    materials: Seq<u64>,
    channel_sets: Seq<Seq<NodeId>>,
    i: int,
)
    requires
        signing_run(states, mes, nexts, materials, channel_sets),
        0 <= i < states.len(),
    ensures
        states[i].hops.len() == if states[0].hops.len() >= i {
            states[0].hops.len() - i
        } else {
            0
        },
    decreases i,
{
    if i > 0 {
        lemma_retrace_pops_equal_pushes(states, mes, nexts, materials, channel_sets, i - 1);
        assert(signing_step(
            states[i - 1].tx,
            states[i - 1].participants,
            states[i - 1].hops,
            mes[i - 1],
            materials[i - 1],
            channel_sets[i - 1],
        ) == Result::<SpecAction, ProtocolError>::Ok(
            SpecAction::Forward {
                next: nexts[i - 1],
                participants: states[i].participants,
                hops: states[i].hops,
                tx: states[i].tx,
                sign: true,
            },
        ));
    }
}

/// Whether an executable outcome realizes a specified one, carrying the
/// unchanged batch parameters.
pub open spec fn matches_outcome(
    r: Result<Action, ProtocolError>,
    s: Result<SpecAction, ProtocolError>,
    uniform_amount: u64,
    fee_per_participant: u64,
    max_participants: u8,
) -> bool {
    match (r, s) {
        (Result::Ok(a), Result::Ok(sa)) => action_matches(
            a,
            sa,
            uniform_amount,
            fee_per_participant,
            max_participants,
        ),
        (Result::Err(e), Result::Err(se)) => e == se,
        _ => false,
    }
}

/// Whether an executable action realizes a specified one.
pub open spec fn action_matches(
    a: Action,
    sa: SpecAction,
    uniform_amount: u64,
    fee_per_participant: u64,
    max_participants: u8,
) -> bool {
    match (a, sa) {
        (
            Action::Forward { next, request },
            SpecAction::Forward { next: sn, participants, hops, tx, sign },
        ) => {
            &&& next == sn
            &&& request.uniform_amount == uniform_amount
            &&& request.fee_per_participant == fee_per_participant
            &&& request.max_participants == max_participants
            &&& request.participants@ == participants
            &&& request.hops@ == hops
            &&& request.psbt_hex@ == tx_hex(tx)
            &&& request.sign == sign
        },
        (Action::Finalize { psbt_hex }, SpecAction::Finalize { tx }) => psbt_hex@ == tx_hex(tx),
        _ => false,
    }
}

/// The participant list after the join step of the collecting phase.
pub open spec fn joined_participants(req: BatchRequest, me: NodeId) -> Seq<NodeId> {
    if !req.sign && !req.participants@.contains(me) {
        req.participants@.push(me)
    } else {
        req.participants@
    }
}

/// The decoded transaction after the join step of the collecting phase:
/// the wallet's contribution is appended when this node was not yet a
/// participant. Meaningful when the request decodes and, on a join, a
/// contribution is at hand.
pub open spec fn collected_tx(
    req: BatchRequest,
    me: NodeId,
    contribution: Option<Contribution>,
) -> TxView {
    let t0 = tx_of_hex(req.psbt_hex@)->Some_0;
    if !req.participants@.contains(me) {
        contributed(t0, me, contribution->Some_0)
    } else {
        t0
    }
}

/// The transaction after a joining wallet's contribution is appended.
pub open spec fn contributed(t: TxView, joiner: NodeId, c: Contribution) -> TxView {
    TxView {
        input_metas: t.input_metas + Seq::new(
            c.inputs@.len(),
            |i: int| InputMeta { owner: joiner, sig: 0u64 },
        ),
        inputs: t.inputs + c.inputs@,
        output_metas: t.output_metas + c.output_metas@,
        outputs: t.outputs + c.outputs@,
    }
}

/// Same well-formed pairs on each side, in some order.
pub open spec fn permutation_of(a: TxView, b: TxView) -> bool {
    &&& a.wf()
    &&& a.input_pairs().to_multiset() == b.input_pairs().to_multiset()
    &&& a.output_pairs().to_multiset() == b.output_pairs().to_multiset()
}

// ---------------------------------------------------------------------
// Executable helpers.
// ---------------------------------------------------------------------
fn contains_node(v: &Vec<NodeId>, x: NodeId) -> (r: bool)
    ensures
        r == v@.contains(x),
{
    let mut i: usize = 0;
    while i < v.len()
        invariant
            i <= v@.len(),
            forall|j: int| 0 <= j < i ==> v@[j] != x,
        decreases v@.len() - i,
    {
        if v[i] == x {
            return true;
        }
        i += 1;
    }
    false
}

fn clone_nodes(v: &Vec<NodeId>) -> (r: Vec<NodeId>)
    ensures
        r@ == v@,
{
    let mut r: Vec<NodeId> = Vec::new();
    let mut i: usize = 0;
    while i < v.len()
        invariant
            i <= v@.len(),
            r@ == v@.take(i as int),
        decreases v@.len() - i,
    {
        r.push(v[i]);
        i += 1;
        proof {
            assert(r@ =~= v@.take(i as int));
        }
    }
    proof {
        assert(v@.take(v@.len() as int) =~= v@);
    }
    r
}

fn remove_node_vec(v: &Vec<NodeId>, x: NodeId) -> (r: Vec<NodeId>)
    ensures
        r@ == remove_node(v@, x),
{
    let mut r: Vec<NodeId> = Vec::new();
    let mut i: usize = 0;
    while i < v.len()
        invariant
            i <= v@.len(),
            r@ == remove_node(v@.take(i as int), x),
        decreases v@.len() - i,
    {
        if v[i] != x {
            r.push(v[i]);
        }
        i += 1;
        proof {
            assert(v@.take(i as int).drop_last() =~= v@.take(i as int - 1));
            assert(v@.take(i as int).last() == v@[i as int - 1]);
        }
    }
    proof {
        assert(v@.take(v@.len() as int) =~= v@);
    }
    r
}

fn last_with_channel(participants: &Vec<NodeId>, channels: &Vec<NodeId>) -> (r: Option<NodeId>)
    ensures
        r == last_peer_with_channel(participants@, channels@),
{
    let mut i: usize = participants.len();
    proof {
        assert(participants@.take(i as int) =~= participants@);
    }
    while i > 0
        invariant
            i <= participants@.len(),
            last_peer_with_channel(participants@, channels@) == last_peer_with_channel(
                participants@.take(i as int),
                channels@,
            ),
        decreases i,
    {
        let cand = participants[i - 1];
        let connected = contains_node(channels, cand);
        proof {
            assert(participants@.take(i as int).last() == cand);
            assert(participants@.take(i as int).drop_last() =~= participants@.take(i as int - 1));
        }
        if connected {
            return Some(cand);
        }
        i -= 1;
    }
    None
}

/// Collecting-phase next-hop selection; see [`spec_next_hop`] for the
/// preference order. None means a routing failure: no open channel leads
/// anywhere.
pub fn select_next_hop(
    channels: &Vec<NodeId>,
    participants: &Vec<NodeId>,
    hops: &Vec<NodeId>,
    prev: NodeId,
) -> (r: Option<NodeId>)
    ensures
        r == spec_next_hop(channels@, participants@, hops@, prev),
{
    let last = if hops.len() == 0 {
        None
    } else {
        Some(hops[hops.len() - 1])
    };
    assert(last == last_hop(hops@));
    let fresh = first_fresh(channels, participants, last);
    if let Some(p) = fresh {
        return Some(p);
    }
    if channels.len() == 1 {
        return Some(channels[0]);
    }
    first_other(channels, prev)
}

fn first_fresh(channels: &Vec<NodeId>, participants: &Vec<NodeId>, last: Option<NodeId>) -> (r:
    Option<NodeId>)
    ensures
        r == first_fresh_peer(channels@, participants@, last),
{
    let mut i: usize = 0;
    proof {
        assert(channels@.skip(0) =~= channels@);
    }
    while i < channels.len()
        invariant
            i <= channels@.len(),
            first_fresh_peer(channels@, participants@, last) == first_fresh_peer(
                channels@.skip(i as int),
                participants@,
                last,
            ),
        decreases channels@.len() - i,
    {
        let cand = channels[i];
        let in_parts = contains_node(participants, cand);
        let is_last = match last {
            Some(l) => l == cand,
            None => false,
        };
        proof {
            assert(channels@.skip(i as int)[0] == cand);
            assert(channels@.skip(i as int).drop_first() =~= channels@.skip(i as int + 1));
        }
        if !in_parts && !is_last {
            return Some(cand);
        }
        i += 1;
    }
    None
}

fn first_other(channels: &Vec<NodeId>, avoid: NodeId) -> (r: Option<NodeId>)
    ensures
        r == first_other_peer(channels@, avoid),
{
    let mut k: usize = 0;
    proof {
        assert(channels@.skip(0) =~= channels@);
    }
    while k < channels.len()
        invariant
            k <= channels@.len(),
            first_other_peer(channels@, avoid) == first_other_peer(
                channels@.skip(k as int),
                avoid,
            ),
        decreases channels@.len() - k,
    {
        let cand = channels[k];
        proof {
            assert(channels@.skip(k as int)[0] == cand);
            assert(channels@.skip(k as int).drop_first() =~= channels@.skip(k as int + 1));
        }
        if cand != avoid {
            return Some(cand);
        }
        k += 1;
    }
    None
}

// ---------------------------------------------------------------------
// The handlers.
// ---------------------------------------------------------------------
/// The signing-phase driver: record this node's signatures if owed, pop
/// the path, and route or finalize. Realizes exactly [`signing_step`] on
/// the given state.
pub fn handle_signing(
    tx: Transaction,
    participants: Vec<NodeId>,
    hops: Vec<NodeId>,
    me: NodeId,
    sign_material: u64,
    channels: &Vec<NodeId>,
    uniform_amount: u64,
    fee_per_participant: u64,
    max_participants: u8,
) -> (r: Result<Action, ProtocolError>)
    requires
        tx@.wf(),
    ensures
        matches_outcome(
            r,
            signing_step(tx@, participants@, hops@, me, sign_material, channels@),
            uniform_amount,
            fee_per_participant,
            max_participants,
        ),
{
    let ghost h0 = hops@;
    let mut tx = tx;
    let mut participants = participants;
    let mut hops = hops;
    let owes = contains_node(&participants, me);
    if owes {
        if !tx.sign_own_inputs(me, sign_material) {
            return Result::Err(ProtocolError::Signing);
        }
        participants = remove_node_vec(&participants, me);
    }
    let hex = encode_to_hex(&tx);
    if hops.len() > 0 {
        let next_signer = hops.pop().unwrap();
        proof {
            assert(next_signer == h0.last());
            assert(hops@ =~= h0.drop_last());
        }
        if contains_node(channels, next_signer) {
            Result::Ok(
                Action::Forward {
                    next: next_signer,
                    request: BatchRequest {
                        uniform_amount,
                        fee_per_participant,
                        max_participants,
                        participants,
                        hops,
                        psbt_hex: hex,
                        sign: true,
                    },
                },
            )
        } else {
            match last_with_channel(&participants, channels) {
                Some(alt) => {
                    if !contains_node(&participants, next_signer) {
                        participants.push(next_signer);
                    }
                    Result::Ok(
                        Action::Forward {
                            next: alt,
                            request: BatchRequest {
                                uniform_amount,
                                fee_per_participant,
                                max_participants,
                                participants,
                                hops,
                                psbt_hex: hex,
                                sign: true,
                            },
                        },
                    )
                },
                None => Result::Err(ProtocolError::Routing),
            }
        }
    } else {
        if participants.len() == 0 {
            Result::Ok(Action::Finalize { psbt_hex: hex })
        } else {
            match last_with_channel(&participants, channels) {
                Some(alt) => Result::Ok(
                    Action::Forward {
                        next: alt,
                        request: BatchRequest {
                            uniform_amount,
                            fee_per_participant,
                            max_participants,
                            participants,
                            hops,
                            psbt_hex: hex,
                            sign: true,
                        },
                    },
                ),
                None => Result::Err(ProtocolError::Routing),
            }
        }
    }
}

/// Process one received batch request at node `me`, sent by
/// `prev_node_id`. `channels` lists the counterparties of the currently
/// open channels; `contribution` is what this node's wallet can add if the
/// node joins (None when the wallet cannot cover the fee), and
/// `sign_material` is its signing key material (zero when unavailable).
///
/// The collecting phase joins, checks the quota against
/// `max_participants`, and either forwards to a fresh peer (recording this
/// node on the path) or shuffles and falls into the signing phase; the
/// signing phase realizes [`signing_step`]. Every outbound transaction
/// remains well formed, and the phase flag switches to signing exactly
/// when the quota is met, never back.
#[verifier::rlimit(60)]
#[verifier::spinoff_prover]
pub fn process_received(
    req: &BatchRequest,
    me: NodeId,
    prev_node_id: NodeId,
    channels: &Vec<NodeId>,
    contribution: Option<Contribution>,
    sign_material: u64,
) -> (r: Result<Action, ProtocolError>)
    requires
        contribution matches Some(c) ==> c.wf(),
    ensures
        tx_of_hex(req.psbt_hex@) is None ==> r == Result::<Action, ProtocolError>::Err(
            ProtocolError::Parse,
        ),
        (tx_of_hex(req.psbt_hex@) is Some && !req.sign && !req.participants@.contains(me)
            && contribution is None) ==> r == Result::<Action, ProtocolError>::Err(
            ProtocolError::Funding,
        ),
        (tx_of_hex(req.psbt_hex@) is Some && !req.sign && (req.participants@.contains(me)
            || contribution is Some) && joined_participants(*req, me).len()
            >= req.max_participants as int) ==> exists|mid: TxView|
            #[trigger] permutation_of(mid, collected_tx(*req, me, contribution))
                && matches_outcome(
                r,
                signing_step(
                    mid,
                    joined_participants(*req, me),
                    req.hops@,
                    me,
                    sign_material,
                    channels@,
                ),
                req.uniform_amount,
                req.fee_per_participant,
                req.max_participants,
            ),
        (tx_of_hex(req.psbt_hex@) is Some && !req.sign && (req.participants@.contains(me)
            || contribution is Some) && joined_participants(*req, me).len()
            < req.max_participants as int) ==> match spec_next_hop(
            channels@,
            joined_participants(*req, me),
            req.hops@,
            prev_node_id,
        ) {
            Some(n) => matches_outcome(
                r,
                Result::Ok(
                    SpecAction::Forward {
                        next: n,
                        participants: joined_participants(*req, me),
                        hops: req.hops@.push(me),
                        tx: collected_tx(*req, me, contribution),
                        sign: false,
                    },
                ),
                req.uniform_amount,
                req.fee_per_participant,
                req.max_participants,
            ),
            None => r == Result::<Action, ProtocolError>::Err(ProtocolError::Routing),
        },
        (tx_of_hex(req.psbt_hex@) is Some && req.sign) ==> matches_outcome(
            r,
            signing_step(
                tx_of_hex(req.psbt_hex@)->Some_0,
                req.participants@,
                req.hops@,
                me,
                sign_material,
                channels@,
            ),
            req.uniform_amount,
            req.fee_per_participant,
            req.max_participants,
        ),
        // the phase flag switches to signing exactly at the quota, never back
        (match r {
            Result::Ok(Action::Forward { request, .. }) => request.sign == (req.sign
                || joined_participants(*req, me).len() >= req.max_participants as int),
            _ => true,
        }),
{
    let tx = match decode_from_hex(req.psbt_hex.as_str()) {
        Some(t) => t,
        None => {
            return Result::Err(ProtocolError::Parse);
        },
    };
    let mut tx = tx;
    let mut participants = clone_nodes(&req.participants);
    let mut hops = clone_nodes(&req.hops);
    if !req.sign {
        let joins = !contains_node(&participants, me);
        if joins {
            match &contribution {
                Some(c) => {
                    participants.push(me);
                    tx.append_contribution(me, c);
                    proof {
                        assert(tx@ =~~= contributed(
                            tx_of_hex(req.psbt_hex@)->Some_0,
                            me,
                            contribution->Some_0,
                        ));
                    }
                },
                None => {
                    return Result::Err(ProtocolError::Funding);
                },
            }
        }
        if participants.len() >= req.max_participants as usize {
            let ghost t1 = tx@;
            shuffle_transaction(&mut tx);
            let ghost mid = tx@;
            let ghost parts1 = participants@;
            let res = handle_signing(
                tx,
                participants,
                hops,
                me,
                sign_material,
                channels,
                req.uniform_amount,
                req.fee_per_participant,
                req.max_participants,
            );
            proof {
                assert(t1 == collected_tx(*req, me, contribution));
                assert(permutation_of(mid, collected_tx(*req, me, contribution)));
                assert(matches_outcome(
                    res,
                    signing_step(mid, parts1, req.hops@, me, sign_material, channels@),
                    req.uniform_amount,
                    req.fee_per_participant,
                    req.max_participants,
                ));
            }
            res
        } else {
            match select_next_hop(channels, &participants, &hops, prev_node_id) {
                Some(next) => {
                    hops.push(me);
                    let hex = encode_to_hex(&tx);
                    Result::Ok(
                        Action::Forward {
                            next,
                            request: BatchRequest {
                                uniform_amount: req.uniform_amount,
                                fee_per_participant: req.fee_per_participant,
                                max_participants: req.max_participants,
                                participants,
                                hops,
                                psbt_hex: hex,
                                sign: false,
                            },
                        },
                    )
                },
                None => Result::Err(ProtocolError::Routing),
            }
        }
    } else {
        handle_signing(
            tx,
            participants,
            hops,
            me,
            sign_material,
            channels,
            req.uniform_amount,
            req.fee_per_participant,
            req.max_participants,
        )
    }
}

} // verus!

