use vstd::prelude::*;
use crate::hash::{sha256, sha256_fn};
use crate::machine::{
    lemma_run_concat, lemma_run_one, lemma_run_two, lemma_start_executing, run, start, step,
};
use crate::script::{Instr, Opcode, Program};

verus! {

/// The hash-chain commitment of leaves given in push order (the last one is
/// on top): hash the last leaf, then, from the second-to-last down to the
/// first, prepend the leaf to the running digest and hash again.
pub open spec fn fold_commit(h: spec_fn(Seq<u8>) -> Seq<u8>, leaves: Seq<Seq<u8>>) -> Seq<u8>
    decreases leaves.len(),
{
    if leaves.len() <= 1 {
        h(leaves[0])
    } else {
        h(leaves[0] + fold_commit(h, leaves.drop_first()))
    }
}

/// The commitment program for `k` leaves: a hash, then `k - 1` times a
/// concatenation and a hash.
pub open spec fn commit_program(k: nat) -> Seq<Instr>
    decreases k,
{
    if k <= 1 {
        seq![Instr::Op(Opcode::Sha256)]
    } else {
        commit_program((k - 1) as nat) + seq![Instr::Op(Opcode::Cat), Instr::Op(Opcode::Sha256)]
    }
}

/// The commitment program replaces the `j` topmost leaves by the commitment
/// of those leaves.
proof fn lemma_commit_steps(
    h: spec_fn(Seq<u8>) -> Seq<u8>,
    base: Seq<Seq<u8>>,
    leaves: Seq<Seq<u8>>,
    j: nat,
)
    requires
        1 <= j <= leaves.len(),
    ensures
        run(h, commit_program(j), start(base + leaves)) == Some(
            start(
                (base + leaves.subrange(0, leaves.len() - j)).push(
                    fold_commit(h, leaves.subrange(leaves.len() - j, leaves.len() as int)),
                ),
            ),
        ),
    decreases j,
{
    let n = leaves.len();
    let s = base + leaves;
    if j == 1 {
        lemma_run_one(h, Instr::Op(Opcode::Sha256), start(s));
        lemma_start_executing(s);
        assert(s.drop_last() =~= base + leaves.subrange(0, n - 1));
        assert(leaves.subrange(n - 1, n as int).len() == 1);
        assert(s.last() == leaves.subrange(n - 1, n as int)[0]);
    } else {
        lemma_commit_steps(h, base, leaves, (j - 1) as nat);
        let tail = leaves.subrange(n - j + 1, n as int);
        let mid = start((base + leaves.subrange(0, n - j + 1)).push(fold_commit(h, tail)));
        lemma_run_concat(
            h,
            commit_program((j - 1) as nat),
            seq![Instr::Op(Opcode::Cat), Instr::Op(Opcode::Sha256)],
            start(s),
        );
        lemma_run_two(h, Instr::Op(Opcode::Cat), Instr::Op(Opcode::Sha256), mid);
        lemma_start_executing(mid.main);
        let whole = leaves.subrange(n - j, n as int);
        assert(whole.drop_first() =~= tail);
        let m = mid.main;
        assert(m.subrange(0, m.len() - 2) =~= base + leaves.subrange(0, n - j));
        assert(m[m.len() - 2] == whole[0]);
        let after_cat = start(m.subrange(0, m.len() - 2).push(m[m.len() - 2] + m[m.len() - 1]));
        lemma_start_executing(after_cat.main);
        assert(step(h, mid, Instr::Op(Opcode::Cat)) == Some(after_cat));
        let fin = start(after_cat.main.drop_last().push(h(after_cat.main.last())));
        assert(step(h, after_cat, Instr::Op(Opcode::Sha256)) == Some(fin));
        assert(fold_commit(h, whole) == h(whole[0] + fold_commit(h, tail)));
        assert(fin.main =~= (base + leaves.subrange(0, n - j)).push(fold_commit(h, whole)));
        assert(run(h, commit_program((j - 1) as nat), start(s)) == Some(mid));
    }
}

/// Executing the commitment program for `k` leaves on a stack whose `k` top
/// items are the leaves replaces them by their hash-chain commitment, for
/// every hash the machine may use.
pub proof fn lemma_commit_program(
    h: spec_fn(Seq<u8>) -> Seq<u8>,
    base: Seq<Seq<u8>>,
    leaves: Seq<Seq<u8>>,
)
    requires
        leaves.len() >= 1,
    ensures
        run(h, commit_program(leaves.len()), start(base + leaves)) == Some(
            start(base.push(fold_commit(h, leaves))),
        ),
{
    lemma_commit_steps(h, base, leaves, leaves.len());
    assert(leaves.subrange(0, 0) =~= Seq::<Seq<u8>>::empty());
    assert(base + leaves.subrange(0, 0) =~= base);
    assert(leaves.subrange(0, leaves.len() as int) =~= leaves);
}

fn commit_program_of(k: usize) -> (r: Program)
    requires
        k >= 1,
    ensures
        r@ == commit_program(k as nat),
{
    let mut p = Program::new();
    p.op(Opcode::Sha256);
    assert(p@ =~= commit_program(1));
    let mut i: usize = 1;
    while i < k
        invariant
            1 <= i <= k,
            p@ == commit_program(i as nat),
        decreases k - i,
    {
        p.op(Opcode::Cat);
        p.op(Opcode::Sha256);
        i = i + 1;
        assert(p@ =~= commit_program(i as nat));
    }
    p
}

/// Gadget for committing field elements whose leaf encodings are on the
/// stack, the last leaf on top.
pub struct CommitmentGadget;

impl CommitmentGadget {
    /// Commit an M31 element: one leaf.
    pub fn commit_m31() -> (r: Program)
        ensures
            r@ == commit_program(1),
    {
        commit_program_of(1)
    }

    /// Commit a CM31 element: two leaves.
    pub fn commit_cm31() -> (r: Program)
        ensures
            r@ == commit_program(2),
    {
        commit_program_of(2)
    }

    /// Commit a QM31 element: four leaves.
    pub fn commit_qm31() -> (r: Program)
        ensures
            r@ == commit_program(4),
    {
        commit_program_of(4)
    }
}

/// A 32-byte commitment computed off the machine.
pub struct Commitment {
    bytes: Vec<u8>,
}

impl View for Commitment {
    type V = Seq<u8>;

    closed spec fn view(&self) -> Seq<u8> {
        self.bytes@
    }
}

impl Commitment {
    /// The hash-chain commitment of the leaf encodings, in push order.
    pub fn commit_leaves(leaves: &Vec<Vec<u8>>) -> (r: Commitment)
        requires
            leaves@.len() >= 1,
        ensures
            r@ == fold_commit(sha256_fn(), leaves@.map_values(|l: Vec<u8>| l@)),
            r@.len() == 32,
    {
        let ghost ls = leaves@.map_values(|l: Vec<u8>| l@);
        let n = leaves.len();
        let mut digest = sha256(&leaves[n - 1]);
        assert(ls.subrange(n - 1, n as int) =~= seq![ls[n - 1]]);
        let mut i: usize = n - 1;
        while i > 0
            invariant
                0 <= i < n,
                n == leaves@.len(),
                ls == leaves@.map_values(|l: Vec<u8>| l@),
                digest@ == fold_commit(sha256_fn(), ls.subrange(i as int, n as int)),
                digest@.len() == 32,
            decreases i,
        {
            let mut data = leaves[i - 1].clone();
            let mut rest = digest;
            data.append(&mut rest);
            digest = sha256(&data);
            i = i - 1;
            assert(ls.subrange(i as int, n as int).drop_first() =~= ls.subrange(i + 1, n as int));
        }
        assert(ls.subrange(0, n as int) =~= ls);
        Commitment { bytes: digest }
    }

    /// The commitment of an M31 element, from its leaf encoding.
    pub fn commit_m31(a: &Vec<u8>) -> (r: Commitment)
        ensures
            r@ == fold_commit(sha256_fn(), seq![a@]),
            r@.len() == 32,
    {
        let leaves = vec![a.clone()];
        let r = Commitment::commit_leaves(&leaves);
        assert(leaves@.map_values(|l: Vec<u8>| l@) =~= seq![a@]);
        r
    }

    /// The commitment of a CM31 element, from its two leaf encodings in push
    /// order.
    pub fn commit_cm31(leaves: &Vec<Vec<u8>>) -> (r: Commitment)
        requires
            leaves@.len() == 2,
        ensures
            r@ == fold_commit(sha256_fn(), leaves@.map_values(|l: Vec<u8>| l@)),
            r@.len() == 32,
    {
        Commitment::commit_leaves(leaves)
    }

    /// The commitment of a QM31 element, from its four leaf encodings in
    /// push order.
    pub fn commit_qm31(leaves: &Vec<Vec<u8>>) -> (r: Commitment)
        requires
            leaves@.len() == 4,
        ensures
            r@ == fold_commit(sha256_fn(), leaves@.map_values(|l: Vec<u8>| l@)),
            r@.len() == 32,
    {
        Commitment::commit_leaves(leaves)
    }

    /// The bytes of the commitment.
    pub fn as_bytes(&self) -> (r: &Vec<u8>)
        ensures
            r@ == self@,
    {
        &self.bytes
    }
}

} // verus!
