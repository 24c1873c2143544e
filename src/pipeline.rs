use vstd::prelude::*;
use crate::channel::{absorb_all, absorb_program, lemma_absorb_program, HashDigest};
use crate::machine::{lemma_run_concat, lemma_run_one, lemma_start_executing, run, start};
use crate::pcs::CommitmentSchemeVerifierGadget;
use crate::script::{Instr, Program};

verus! {

/// Builds the program that verifies a proof.
pub struct Verifier;

impl Verifier {
    /// The verification program: the channel program, then the absorption of
    /// each commitment of the proof, in order. `column_log_sizes` holds the
    /// log size of each committed column.
    pub fn verify(
        commitments: &Vec<HashDigest>,
        column_log_sizes: &Vec<u32>,
        channel: Program,
    ) -> (r: Program)
        ensures
            r@ == channel@ + absorb_program(commitments@.map_values(|d: HashDigest| d@)),
    {
        let ghost ds = commitments@.map_values(|d: HashDigest| d@);
        let mut p = channel;
        let ghost head = p@;
        let mut i: usize = 0;
        assert(ds.subrange(0, 0) =~= Seq::<Seq<u8>>::empty());
        while i < commitments.len()
            invariant
                i <= commitments@.len(),
                ds == commitments@.map_values(|d: HashDigest| d@),
                p@ == head + absorb_program(ds.subrange(0, i as int)),
            decreases commitments.len() - i,
        {
            let digest = HashDigest::from_bytes(commitments[i].to_vec()).unwrap();
            let step = CommitmentSchemeVerifierGadget::commit(digest, column_log_sizes.clone());
            p.append(step);
            assert(ds.subrange(0, i + 1).drop_last() =~= ds.subrange(0, i as int));
            i = i + 1;
            assert(p@ =~= head + absorb_program(ds.subrange(0, i as int)));
        }
        assert(ds.subrange(0, i as int) =~= ds);
        p
    }
}

/// The verification program built from a channel seed and a list of
/// commitments leaves, on any machine hash, the channel state that absorbing
/// the commitments in order into the seed gives.
pub proof fn lemma_pipeline(
    h: spec_fn(Seq<u8>) -> Seq<u8>,
    base: Seq<Seq<u8>>,
    seed: Seq<u8>,
    commitments: Seq<Seq<u8>>,
)
    ensures
        run(h, seq![Instr::Push(seed)] + absorb_program(commitments), start(base)) == Some(
            start(base.push(absorb_all(h, seed, commitments))),
        ),
{
    lemma_start_executing(base);
    lemma_run_one(h, Instr::Push(seed), start(base));
    lemma_run_concat(h, seq![Instr::Push(seed)], absorb_program(commitments), start(base));
    lemma_absorb_program(h, base, seed, commitments);
}

} // verus!
