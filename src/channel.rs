use vstd::prelude::*;
use crate::hash::{sha256, sha256_of};
use crate::machine::{lemma_run_concat, lemma_run_one, lemma_run_two, lemma_start_executing, run, start};
use crate::script::{Instr, Opcode, Program};

verus! {

/// A 32-byte digest: a commitment or a channel state.
pub struct HashDigest {
    bytes: Vec<u8>,
}

impl View for HashDigest {
    type V = Seq<u8>;

    closed spec fn view(&self) -> Seq<u8> {
        self.bytes@
    }
}

impl HashDigest {
    #[verifier::type_invariant]
    spec fn inv(self) -> bool {
        self.bytes@.len() == 32
    }

    /// The digest with these bytes; `None` unless there are exactly 32.
    pub fn from_bytes(bytes: Vec<u8>) -> (r: Option<HashDigest>)
        ensures
            r.is_some() <==> bytes@.len() == 32,
            r.is_some() ==> r.unwrap()@ == bytes@,
    {
        if bytes.len() == 32 {
            Some(HashDigest { bytes })
        } else {
            None
        }
    }

    /// The bytes of the digest.
    pub fn as_bytes(&self) -> (r: &Vec<u8>)
        ensures
            r@ == self@,
            r@.len() == 32,
    {
        proof {
            use_type_invariant(self);
        }
        &self.bytes
    }

    /// A copy of the bytes of the digest.
    pub fn to_vec(&self) -> (r: Vec<u8>)
        ensures
            r@ == self@,
            r@.len() == 32,
    {
        proof {
            use_type_invariant(self);
        }
        self.bytes.clone()
    }
}

/// The program that absorbs `digest` into the channel state on top of the
/// stack: push the digest, concatenate, hash.
pub open spec fn mix_program(digest: Seq<u8>) -> Seq<Instr> {
    seq![Instr::Push(digest), Instr::Op(Opcode::Cat), Instr::Op(Opcode::Sha256)]
}

/// Absorbing each digest in turn, in order.
pub open spec fn absorb_program(digests: Seq<Seq<u8>>) -> Seq<Instr>
    decreases digests.len(),
{
    if digests.len() == 0 {
        Seq::empty()
    } else {
        absorb_program(digests.drop_last()) + mix_program(digests.last())
    }
}

/// The channel state after absorbing each digest in turn into `channel`.
pub open spec fn absorb_all(
    h: spec_fn(Seq<u8>) -> Seq<u8>,
    channel: Seq<u8>,
    digests: Seq<Seq<u8>>,
) -> Seq<u8>
    decreases digests.len(),
{
    if digests.len() == 0 {
        channel
    } else {
        h(absorb_all(h, channel, digests.drop_last()) + digests.last())
    }
}

/// Mixing a digest on the machine replaces the channel state `c` on top of
/// the stack by `h(c || d)`, the hash of the channel followed by the digest.
pub proof fn lemma_mix_digest(
    h: spec_fn(Seq<u8>) -> Seq<u8>,
    base: Seq<Seq<u8>>,
    channel: Seq<u8>,
    digest: Seq<u8>,
)
    ensures
        run(h, mix_program(digest), start(base.push(channel))) == Some(
            start(base.push(h(channel + digest))),
        ),
{
    let m0 = start(base.push(channel));
    let m1 = start(base.push(channel).push(digest));
    let m2 = start(base.push(channel + digest));
    lemma_start_executing(m0.main);
    lemma_start_executing(m1.main);
    lemma_start_executing(m2.main);
    lemma_run_concat(
        h,
        seq![Instr::Push(digest)],
        seq![Instr::Op(Opcode::Cat), Instr::Op(Opcode::Sha256)],
        m0,
    );
    assert(seq![Instr::Push(digest)] + seq![Instr::Op(Opcode::Cat), Instr::Op(Opcode::Sha256)]
        =~= mix_program(digest));
    lemma_run_one(h, Instr::Push(digest), m0);
    lemma_run_two(h, Instr::Op(Opcode::Cat), Instr::Op(Opcode::Sha256), m1);
    let s = m1.main;
    assert(s.subrange(0, s.len() - 2).push(s[s.len() - 2] + s[s.len() - 1]) =~= m2.main);
    assert(m2.main.drop_last().push(h(m2.main.last())) =~= base.push(h(channel + digest)));
}

/// Absorbing a list of digests on the machine leaves the channel state that
/// absorbing them one by one gives.
pub proof fn lemma_absorb_program(
    h: spec_fn(Seq<u8>) -> Seq<u8>,
    base: Seq<Seq<u8>>,
    channel: Seq<u8>,
    digests: Seq<Seq<u8>>,
)
    ensures
        run(h, absorb_program(digests), start(base.push(channel))) == Some(
            start(base.push(absorb_all(h, channel, digests))),
        ),
    decreases digests.len(),
{
    if digests.len() == 0 {
        assert(run(h, Seq::empty(), start(base.push(channel))) == Some(start(base.push(channel))));
    } else {
        let init = digests.drop_last();
        lemma_absorb_program(h, base, channel, init);
        lemma_run_concat(h, absorb_program(init), mix_program(digests.last()), start(base.push(channel)));
        lemma_mix_digest(h, base, absorb_all(h, channel, init), digests.last());
    }
}

/// Gadget for the Fiat-Shamir channel kept on top of the stack.
pub struct ChannelGadget;

impl ChannelGadget {
    /// Push the seed digest as the initial channel state.
    pub fn create_channel(seed: HashDigest) -> (r: Program)
        ensures
            r@ == seq![Instr::Push(seed@)],
    {
        let mut p = Program::new();
        p.push_bytes(seed.to_vec());
        p
    }

    /// Absorb `digest` into the channel state on top of the stack.
    pub fn mix_digest(digest: HashDigest) -> (r: Program)
        ensures
            r@ == mix_program(digest@),
    {
        let mut p = Program::new();
        p.push_bytes(digest.to_vec());
        p.op(Opcode::Cat);
        p.op(Opcode::Sha256);
        assert(p@ =~= mix_program(digest@));
        p
    }
}

/// The channel state, computed off the machine.
pub struct Channel {
    state: HashDigest,
}

impl View for Channel {
    type V = Seq<u8>;

    closed spec fn view(&self) -> Seq<u8> {
        self.state@
    }
}

impl Channel {
    /// A channel whose state is the seed.
    pub fn new(seed: HashDigest) -> (r: Channel)
        ensures
            r@ == seed@,
    {
        Channel { state: seed }
    }

    /// The current state.
    pub fn digest(&self) -> (r: &HashDigest)
        ensures
            r@ == self@,
    {
        &self.state
    }

    /// Absorb `digest`: the new state is the SHA-256 of the old state
    /// followed by the digest.
    pub fn mix_digest(&mut self, digest: &HashDigest)
        ensures
            final(self)@ == sha256_of(old(self)@ + digest@),
    {
        let mut data = self.state.to_vec();
        let mut more = digest.to_vec();
        data.append(&mut more);
        let next = sha256(&data);
        self.state = HashDigest { bytes: next };
    }
}

} // verus!
