//! The privacy shuffle performed once per batch, at the transition from
//! collecting to signing: the aligned input pairs and, independently, the
//! aligned output pairs are permuted with fresh randomness, so that the
//! position of an input or output no longer reveals the join order of the
//! participant that contributed it.

use vstd::prelude::*;

use crate::transaction::{InputMeta, NodeId, OutputMeta, Transaction, TxInput, TxOutput, TxView};

verus! {

broadcast use vstd::seq_lib::group_to_multiset_ensures;

/// Relies on rand's `SliceRandom::shuffle`: it permutes the slice in place
/// (with randomness from `rand::rng`), so exactly the old elements remain,
/// with their multiplicities.
#[verifier::external_body]
fn permute<T>(v: &mut Vec<T>)
    ensures
        final(v)@.len() == old(v)@.len(),
        final(v)@.to_multiset() == old(v)@.to_multiset(),
{
    rand::seq::SliceRandom::shuffle(v.as_mut_slice(), &mut rand::rng());
}

/// Permute the aligned input pairs and the aligned output pairs of `t`,
/// each independently. The multiset of (bookkeeping, raw) pairs on each
/// side is unchanged: only the order moves, and bookkeeping entries travel
/// with their raw counterparts. Who owes a signature is therefore also
/// unchanged.
pub fn shuffle_transaction(t: &mut Transaction)
    requires
        old(t)@.wf(),
    ensures
        final(t)@.wf(),
        final(t)@.input_pairs().to_multiset() == old(t)@.input_pairs().to_multiset(),
        final(t)@.output_pairs().to_multiset() == old(t)@.output_pairs().to_multiset(),
        forall|n: NodeId| final(t)@.owes_signature(n) == old(t)@.owes_signature(n),
{
    let ghost t0 = t@;
    let mut in_pairs: Vec<(InputMeta, TxInput)> = Vec::new();
    let mut i: usize = 0;
    while i < t.input_metas.len()
        invariant
            t@ == t0,
            t0.wf(),
            i <= t0.input_metas.len(),
            in_pairs@ == t0.input_pairs().take(i as int),
        decreases t0.input_metas.len() - i,
    {
        in_pairs.push((t.input_metas[i], t.inputs[i]));
        i += 1;
        proof {
            assert(in_pairs@ =~= t0.input_pairs().take(i as int));
        }
    }
    proof {
        assert(in_pairs@ =~= t0.input_pairs());
    }
    permute(&mut in_pairs);
    let mut new_imetas: Vec<InputMeta> = Vec::new();
    let mut new_iraws: Vec<TxInput> = Vec::new();
    let mut j: usize = 0;
    while j < in_pairs.len()
        invariant
            j <= in_pairs@.len(),
            new_imetas@.len() == j,
            new_iraws@.len() == j,
            forall|k: int| 0 <= k < j ==> new_imetas@[k] == (#[trigger] in_pairs@[k]).0,
            forall|k: int| 0 <= k < j ==> new_iraws@[k] == (#[trigger] in_pairs@[k]).1,
        decreases in_pairs@.len() - j,
    {
        new_imetas.push(in_pairs[j].0);
        new_iraws.push(in_pairs[j].1);
        j += 1;
    }
    t.input_metas = new_imetas;
    t.inputs = new_iraws;
    proof {
        assert(t@.input_pairs() =~= in_pairs@);
        assert(t@.output_pairs() =~= t0.output_pairs());
    }

    let ghost t1 = t@;
    let mut out_pairs: Vec<(OutputMeta, TxOutput)> = Vec::new();
    let mut p: usize = 0;
    while p < t.output_metas.len()
        invariant
            t@ == t1,
            t1.wf(),
            p <= t1.output_metas.len(),
            out_pairs@ == t1.output_pairs().take(p as int),
        decreases t1.output_metas.len() - p,
    {
        out_pairs.push((t.output_metas[p], t.outputs[p]));
        p += 1;
        proof {
            assert(out_pairs@ =~= t1.output_pairs().take(p as int));
        }
    }
    proof {
        assert(out_pairs@ =~= t1.output_pairs());
    }
    permute(&mut out_pairs);
    let mut new_ometas: Vec<OutputMeta> = Vec::new();
    let mut new_oraws: Vec<TxOutput> = Vec::new();
    let mut q: usize = 0;
    while q < out_pairs.len()
        invariant
            q <= out_pairs@.len(),
            t@.input_pairs() == t1.input_pairs(),
            t@.input_metas == t1.input_metas,
            new_ometas@.len() == q,
            new_oraws@.len() == q,
            forall|k: int| 0 <= k < q ==> new_ometas@[k] == (#[trigger] out_pairs@[k]).0,
            forall|k: int| 0 <= k < q ==> new_oraws@[k] == (#[trigger] out_pairs@[k]).1,
        decreases out_pairs@.len() - q,
    {
        new_ometas.push(out_pairs[q].0);
        new_oraws.push(out_pairs[q].1);
        q += 1;
    }
    t.output_metas = new_ometas;
    t.outputs = new_oraws;
    proof {
        assert(t@.output_pairs() =~= out_pairs@);
        lemma_pair_multiset_owners(t0, t@);
    }
}

/// When two well-formed transactions hold the same multiset of input
/// pairs, the same peers owe signatures in both.
proof fn lemma_pair_multiset_owners(a: TxView, b: TxView)
    requires
        a.wf(),
        b.wf(),
        a.input_pairs().to_multiset() == b.input_pairs().to_multiset(),
    ensures
        forall|n: NodeId| a.owes_signature(n) == b.owes_signature(n),
{
    assert forall|n: NodeId| a.owes_signature(n) == b.owes_signature(n) by {
        if a.owes_signature(n) {
            let i = choose|i: int|
                0 <= i < a.input_metas.len() && a.input_metas[i].owner == n;
            assert(a.input_pairs()[i] == (a.input_metas[i], a.inputs[i]));
            assert(a.input_pairs().contains((a.input_metas[i], a.inputs[i])));
            assert(a.input_pairs().to_multiset().count((a.input_metas[i], a.inputs[i])) > 0);
            assert(b.input_pairs().to_multiset().count((a.input_metas[i], a.inputs[i])) > 0);
            assert(b.input_pairs().contains((a.input_metas[i], a.inputs[i])));
            let k = choose|k: int|
                0 <= k < b.input_pairs().len() && b.input_pairs()[k] == (
                    a.input_metas[i],
                    a.inputs[i],
                );
            assert(b.input_metas[k].owner == n);
        }
        if b.owes_signature(n) {
            let i = choose|i: int|
                0 <= i < b.input_metas.len() && b.input_metas[i].owner == n;
            assert(b.input_pairs()[i] == (b.input_metas[i], b.inputs[i]));
            assert(b.input_pairs().contains((b.input_metas[i], b.inputs[i])));
            assert(b.input_pairs().to_multiset().count((b.input_metas[i], b.inputs[i])) > 0);
            assert(a.input_pairs().to_multiset().count((b.input_metas[i], b.inputs[i])) > 0);
            assert(a.input_pairs().contains((b.input_metas[i], b.inputs[i])));
            let k = choose|k: int|
                0 <= k < a.input_pairs().len() && a.input_pairs()[k] == (
                    b.input_metas[i],
                    b.inputs[i],
                );
            assert(a.input_metas[k].owner == n);
        }
    }
}

} // verus!
