//! The partially signed transaction under construction, modelled as two
//! pairs of parallel sequences: input bookkeeping beside raw inputs, and
//! output bookkeeping beside raw outputs. Every operation preserves the
//! alignment invariant: position `i` of a bookkeeping sequence always
//! describes position `i` of its raw sequence.

use vstd::prelude::*;

verus! {

/// Identity of a network peer (stands for the peer's public key).
#[derive(Clone, Copy, PartialEq, Eq, Structural, Debug)]
pub struct NodeId {
    pub key: u64,
}

/// Protocol bookkeeping kept beside each raw input: the participant that
/// contributed the input, and the signature gathered for it. A `sig` of
/// zero means "not signed yet"; real signature material is never zero.
#[derive(Clone, Copy, PartialEq, Eq, Structural, Debug)]
pub struct InputMeta {
    pub owner: NodeId,
    pub sig: u64,
}

/// A raw transaction input: the coin being spent.
#[derive(Clone, Copy, PartialEq, Eq, Structural, Debug)]
pub struct TxInput {
    pub txid: u64,
}

/// Bookkeeping kept beside each raw output (a derivation tag).
#[derive(Clone, Copy, PartialEq, Eq, Structural, Debug)]
pub struct OutputMeta {
    pub tag: u64,
}

/// A raw transaction output: an amount in satoshis.
#[derive(Clone, Copy, PartialEq, Eq, Structural, Debug)]
pub struct TxOutput {
    pub value: u64,
}

/// The transaction under construction.
#[derive(Clone, PartialEq, Eq, Debug)]
pub struct Transaction {
    pub input_metas: Vec<InputMeta>,
    pub inputs: Vec<TxInput>,
    pub output_metas: Vec<OutputMeta>,
    pub outputs: Vec<TxOutput>,
}

/// Mathematical model of a transaction: the four sequences.
#[verifier::ext_equal]
pub struct TxView {
    pub input_metas: Seq<InputMeta>,
    pub inputs: Seq<TxInput>,
    pub output_metas: Seq<OutputMeta>,
    pub outputs: Seq<TxOutput>,
}

impl View for Transaction {
    type V = TxView;

    open spec fn view(&self) -> TxView {
        TxView {
            input_metas: self.input_metas@,
            inputs: self.inputs@,
            output_metas: self.output_metas@,
            outputs: self.outputs@,
        }
    }
}

/// How one bookkeeping entry changes when `node` signs with `material`.
pub open spec fn sign_meta(m: InputMeta, node: NodeId, material: u64) -> InputMeta {
    if m.owner == node {
        InputMeta { owner: m.owner, sig: material }
    } else {
        m
    }
}

impl TxView {
    /// The alignment invariant: bookkeeping and raw sequences agree in length.
    pub open spec fn wf(self) -> bool {
        &&& self.input_metas.len() == self.inputs.len()
        &&& self.output_metas.len() == self.outputs.len()
    }

    /// The aligned (bookkeeping, raw) input pairs.
    pub open spec fn input_pairs(self) -> Seq<(InputMeta, TxInput)> {
        Seq::new(self.input_metas.len(), |i: int| (self.input_metas[i], self.inputs[i]))
    }

    /// The aligned (bookkeeping, raw) output pairs.
    pub open spec fn output_pairs(self) -> Seq<(OutputMeta, TxOutput)> {
        Seq::new(self.output_metas.len(), |i: int| (self.output_metas[i], self.outputs[i]))
    }

    /// Whether `node` contributed any input, and hence owes a signature.
    pub open spec fn owes_signature(self, node: NodeId) -> bool {
        exists|i: int| 0 <= i < self.input_metas.len() && self.input_metas[i].owner == node
    }

    /// The transaction after `node` signs all of its own inputs.
    pub open spec fn signed_for(self, node: NodeId, material: u64) -> TxView {
        TxView {
            input_metas: Seq::new(
                self.input_metas.len(),
                |i: int| sign_meta(self.input_metas[i], node, material),
            ),
            ..self
        }
    }
}

/// What a joining participant's wallet adds to the transaction: raw inputs
/// it funds (the coordinator records their ownership itself) and aligned
/// output bookkeeping/raw output pairs.
#[derive(Clone, PartialEq, Eq, Debug)]
pub struct Contribution {
    pub inputs: Vec<TxInput>,
    pub output_metas: Vec<OutputMeta>,
    pub outputs: Vec<TxOutput>,
}

impl Contribution {
    /// The contributed output sequences must themselves be aligned.
    pub open spec fn wf(self) -> bool {
        self.output_metas@.len() == self.outputs@.len()
    }
}

impl Transaction {
    /// Append a joining participant's contribution: its raw inputs (owned
    /// by `joiner` and not yet signed) and its output pairs.
    pub fn append_contribution(&mut self, joiner: NodeId, c: &Contribution)
        requires
            old(self)@.wf(),
            c.wf(),
        ensures
            final(self)@.wf(),
            final(self)@.input_metas == old(self)@.input_metas + Seq::new(
                c.inputs@.len(),
                |i: int| InputMeta { owner: joiner, sig: 0u64 },
            ),
            final(self)@.inputs == old(self)@.inputs + c.inputs@,
            final(self)@.output_metas == old(self)@.output_metas + c.output_metas@,
            final(self)@.outputs == old(self)@.outputs + c.outputs@,
    {
        let mut i: usize = 0;
        while i < c.inputs.len()
            invariant
                i <= c.inputs@.len(),
                self.inputs@ == old(self).inputs@ + c.inputs@.take(i as int),
                self.input_metas@ == old(self).input_metas@ + Seq::new(
                    i as nat,
                    |j: int| InputMeta { owner: joiner, sig: 0u64 },
                ),
                self.output_metas@ == old(self).output_metas@,
                self.outputs@ == old(self).outputs@,
            decreases c.inputs@.len() - i,
        {
            self.input_metas.push(InputMeta { owner: joiner, sig: 0 });
            self.inputs.push(c.inputs[i]);
            i += 1;
            proof {
                assert(c.inputs@.take(i as int) =~= c.inputs@.take(i as int - 1).push(
                    c.inputs@[i as int - 1],
                ));
                assert(self.input_metas@ =~= old(self).input_metas@ + Seq::new(
                    i as nat,
                    |j: int| InputMeta { owner: joiner, sig: 0u64 },
                ));
            }
        }
        let mut k: usize = 0;
        while k < c.outputs.len()
            invariant
                k <= c.outputs@.len(),
                c.wf(),
                self.inputs@ == old(self).inputs@ + c.inputs@.take(c.inputs@.len() as int),
                self.input_metas@ == old(self).input_metas@ + Seq::new(
                    c.inputs@.len(),
                    |j: int| InputMeta { owner: joiner, sig: 0u64 },
                ),
                self.output_metas@ == old(self).output_metas@ + c.output_metas@.take(k as int),
                self.outputs@ == old(self).outputs@ + c.outputs@.take(k as int),
            decreases c.outputs@.len() - k,
        {
            self.output_metas.push(c.output_metas[k]);
            self.outputs.push(c.outputs[k]);
            k += 1;
            proof {
                assert(c.output_metas@.take(k as int) =~= c.output_metas@.take(k as int - 1).push(
                    c.output_metas@[k as int - 1],
                ));
                assert(c.outputs@.take(k as int) =~= c.outputs@.take(k as int - 1).push(
                    c.outputs@[k as int - 1],
                ));
            }
        }
        proof {
            assert(c.inputs@.take(c.inputs@.len() as int) =~= c.inputs@);
            assert(c.output_metas@.take(c.output_metas@.len() as int) =~= c.output_metas@);
            assert(c.outputs@.take(c.outputs@.len() as int) =~= c.outputs@);
        }
    }

    /// Record `signer`'s signature (`material`, never zero) on every input
    /// that `signer` contributed. Returns false, leaving the transaction
    /// unchanged, when the key material is unavailable (zero) or no input
    /// of `signer`'s is present.
    pub fn sign_own_inputs(&mut self, signer: NodeId, material: u64) -> (r: bool)
        requires
            old(self)@.wf(),
        ensures
            final(self)@.wf(),
            r == (material != 0 && old(self)@.owes_signature(signer)),
            r ==> final(self)@ == old(self)@.signed_for(signer, material),
            !r ==> final(self)@ == old(self)@,
    {
        if material == 0 {
            return false;
        }
        let mut owned: bool = false;
        let mut i: usize = 0;
        while i < self.input_metas.len()
            invariant
                i <= self.input_metas@.len(),
                *self == *old(self),
                owned == exists|j: int|
                    0 <= j < i && (#[trigger] old(self)@.input_metas[j]).owner == signer,
            decreases self.input_metas@.len() - i,
        {
            if self.input_metas[i].owner == signer {
                owned = true;
                proof {
                    assert((old(self)@.input_metas[i as int]).owner == signer);
                }
            }
            i += 1;
        }
        if !owned {
            return false;
        }
        let mut k: usize = 0;
        while k < self.input_metas.len()
            invariant
                k <= self.input_metas@.len(),
                material != 0,
                self.input_metas@.len() == old(self)@.input_metas.len(),
                forall|j: int|
                    0 <= j < k ==> self.input_metas@[j] == sign_meta(
                        old(self)@.input_metas[j],
                        signer,
                        material,
                    ),
                forall|j: int|
                    k <= j < self.input_metas@.len() ==> self.input_metas@[j] == old(
                        self,
                    )@.input_metas[j],
                self.inputs@ == old(self).inputs@,
                self.output_metas@ == old(self).output_metas@,
                self.outputs@ == old(self).outputs@,
            decreases self.input_metas@.len() - k,
        {
            if self.input_metas[k].owner == signer {
                let owner = self.input_metas[k].owner;
                self.input_metas[k] = InputMeta { owner, sig: material };
            }
            k += 1;
        }
        proof {
            assert(self.input_metas@ =~= Seq::new(
                old(self)@.input_metas.len(),
                |i: int| sign_meta(old(self)@.input_metas[i], signer, material),
            ));
        }
        true
    }
}

} // verus!
