use vstd::prelude::*;
use crate::channel::{mix_program, ChannelGadget, HashDigest};
use crate::script::Program;

verus! {

/// The verifier side of the polynomial commitment scheme.
pub struct CommitmentSchemeVerifierGadget;

impl CommitmentSchemeVerifierGadget {
    /// Reads a commitment from the prover: absorbs it into the channel.
    /// `log_sizes` holds one log size per committed column; no step here
    /// depends on it yet.
    #[allow(unused_variables)]
    pub fn commit(commitment: HashDigest, log_sizes: Vec<u32>) -> (r: Program)
        ensures
            r@ == mix_program(commitment@),
    {
        ChannelGadget::mix_digest(commitment)
    }
}

} // verus!
