use vstd::prelude::*;
use crate::script::{Instr, Opcode};

verus! {

/// A model of the stack machine that the gadgets target, parameterised by
/// its hash function. It covers the opcodes in `script::Opcode`; the
/// machine's limits on item size and stack depth are left out.
///
/// The state of the stack machine: the main stack, the auxiliary stack (top
/// of each is its last item) and the open conditional branches, each marked
/// with whether it executes.
pub struct Machine {
    pub main: Seq<Seq<u8>>,
    pub alt: Seq<Seq<u8>>,
    pub branches: Seq<bool>,
}

/// A machine with `main` as its stack and nothing else.
pub open spec fn start(main: Seq<Seq<u8>>) -> Machine {
    Machine { main, alt: Seq::empty(), branches: Seq::empty() }
}

/// The little-endian bytes of `n`, with no trailing zero byte.
pub open spec fn le_magnitude(n: nat) -> Seq<u8>
    decreases n,
{
    if n == 0 {
        Seq::empty()
    } else {
        seq![(n % 256) as u8] + le_magnitude(n / 256)
    }
}

/// The machine's minimal encoding of a non-negative number: little-endian,
/// with a zero byte added where the top bit of the last byte would read as a
/// sign. Zero is the empty string.
pub open spec fn encode_num(n: nat) -> Seq<u8> {
    let m = le_magnitude(n);
    if m.len() > 0 && m.last() >= 0x80 {
        m.push(0u8)
    } else {
        m
    }
}

/// The little-endian value of a byte string.
pub open spec fn le_value(b: Seq<u8>) -> nat
    decreases b.len(),
{
    if b.len() == 0 {
        0
    } else {
        b[0] as nat + 256 * le_value(b.drop_first())
    }
}

/// The number an item stands for: little-endian sign and magnitude, at most
/// four bytes.
pub open spec fn decode_num(b: Seq<u8>) -> Option<int> {
    if b.len() > 4 {
        None
    } else if b.len() > 0 && b.last() >= 0x80 {
        Some(-(le_value(b.drop_last().push((b.last() - 0x80) as u8)) as int))
    } else {
        Some(le_value(b) as int)
    }
}

/// The absolute value of a number.
pub open spec fn abs_nat(x: int) -> nat {
    if x < 0 {
        (-x) as nat
    } else {
        x as nat
    }
}

/// An item reads as true when it holds a non-zero byte other than a sign bit
/// alone in its last byte.
pub open spec fn truthy(b: Seq<u8>) -> bool {
    exists|i: int|
        0 <= i < b.len() && #[trigger] b[i] != 0 && !(i == b.len() - 1 && b[i] == 0x80)
}

/// The item a boolean result is pushed as.
pub open spec fn bool_item(b: bool) -> Seq<u8> {
    if b {
        seq![1u8]
    } else {
        Seq::empty()
    }
}

/// Whether every open branch executes.
pub open spec fn executing(m: Machine) -> bool {
    !m.branches.contains(false)
}

pub open spec fn top(s: Seq<Seq<u8>>) -> Seq<u8> {
    s.last()
}

pub open spec fn pop(s: Seq<Seq<u8>>) -> Seq<Seq<u8>> {
    s.drop_last()
}

/// The effect of one executed opcode other than the branch opcodes; `None`
/// when it fails. `h` is the machine's hash.
pub open spec fn op_effect(h: spec_fn(Seq<u8>) -> Seq<u8>, m: Machine, op: Opcode) -> Option<
    Machine,
> {
    let s = m.main;
    let n = s.len();
    match op {
        Opcode::Sha256 => if n >= 1 {
            Some(Machine { main: pop(s).push(h(top(s))), ..m })
        } else {
            None
        },
        Opcode::Cat => if n >= 2 {
            Some(Machine { main: s.subrange(0, n - 2).push(s[n - 2] + s[n - 1]), ..m })
        } else {
            None
        },
        Opcode::Size => if n >= 1 {
            Some(Machine { main: s.push(encode_num(top(s).len())), ..m })
        } else {
            None
        },
        Opcode::Equal => if n >= 2 {
            Some(
                Machine {
                    main: s.subrange(0, n - 2).push(bool_item(s[n - 2] == s[n - 1])),
                    ..m
                },
            )
        } else {
            None
        },
        Opcode::EqualVerify => if n >= 2 && s[n - 2] == s[n - 1] {
            Some(Machine { main: s.subrange(0, n - 2), ..m })
        } else {
            None
        },
        Opcode::Verify => if n >= 1 && truthy(top(s)) {
            Some(Machine { main: pop(s), ..m })
        } else {
            None
        },
        Opcode::LessThan => if n >= 2 && decode_num(s[n - 2]).is_some() && decode_num(
            s[n - 1],
        ).is_some() {
            Some(
                Machine {
                    main: s.subrange(0, n - 2).push(
                        bool_item(decode_num(s[n - 2]).unwrap() < decode_num(s[n - 1]).unwrap()),
                    ),
                    ..m
                },
            )
        } else {
            None
        },
        Opcode::Abs => if n >= 1 && decode_num(top(s)).is_some() {
            Some(Machine { main: pop(s).push(encode_num(abs_nat(decode_num(top(s)).unwrap()))), ..m })
        } else {
            None
        },
        Opcode::Pick => if n >= 1 && decode_num(top(s)).is_some() && 0 <= decode_num(
            top(s),
        ).unwrap() < n - 1 {
            Some(Machine { main: pop(s).push(s[n - 2 - decode_num(top(s)).unwrap()]), ..m })
        } else {
            None
        },
        Opcode::Drop => if n >= 1 {
            Some(Machine { main: pop(s), ..m })
        } else {
            None
        },
        Opcode::Dup => if n >= 1 {
            Some(Machine { main: s.push(top(s)), ..m })
        } else {
            None
        },
        Opcode::Swap => if n >= 2 {
            Some(Machine { main: s.subrange(0, n - 2).push(s[n - 1]).push(s[n - 2]), ..m })
        } else {
            None
        },
        Opcode::Over => if n >= 2 {
            Some(Machine { main: s.push(s[n - 2]), ..m })
        } else {
            None
        },
        Opcode::Rot => if n >= 3 {
            Some(
                Machine {
                    main: s.subrange(0, n - 3).push(s[n - 2]).push(s[n - 1]).push(s[n - 3]),
                    ..m
                },
            )
        } else {
            None
        },
        Opcode::ToAltStack => if n >= 1 {
            Some(Machine { main: pop(s), alt: m.alt.push(top(s)), ..m })
        } else {
            None
        },
        Opcode::FromAltStack => if m.alt.len() >= 1 {
            Some(Machine { main: s.push(top(m.alt)), alt: pop(m.alt), ..m })
        } else {
            None
        },
        _ => None,
    }
}

/// One instruction. Outside an executing branch only the branch opcodes
/// act. A branch condition must be the empty item or the single byte 1.
pub open spec fn step(h: spec_fn(Seq<u8>) -> Seq<u8>, m: Machine, i: Instr) -> Option<Machine> {
    match i {
        Instr::Push(bytes) => if executing(m) {
            Some(Machine { main: m.main.push(bytes), ..m })
        } else {
            Some(m)
        },
        Instr::Op(Opcode::If) => if !executing(m) {
            Some(Machine { branches: m.branches.push(false), ..m })
        } else if m.main.len() >= 1 && (top(m.main) == bool_item(true) || top(m.main)
            == bool_item(false)) {
            Some(
                Machine {
                    main: pop(m.main),
                    branches: m.branches.push(top(m.main) == bool_item(true)),
                    ..m
                },
            )
        } else {
            None
        },
        Instr::Op(Opcode::Else) => if m.branches.len() >= 1 {
            Some(
                Machine {
                    branches: pop_branch(m.branches).push(!m.branches.last()),
                    ..m
                },
            )
        } else {
            None
        },
        Instr::Op(Opcode::EndIf) => if m.branches.len() >= 1 {
            Some(Machine { branches: pop_branch(m.branches), ..m })
        } else {
            None
        },
        Instr::Op(op) => if executing(m) {
            op_effect(h, m, op)
        } else {
            Some(m)
        },
    }
}

pub open spec fn pop_branch(b: Seq<bool>) -> Seq<bool> {
    b.drop_last()
}

/// Runs a program from a state; `None` when an instruction fails.
pub open spec fn run(h: spec_fn(Seq<u8>) -> Seq<u8>, p: Seq<Instr>, m: Machine) -> Option<Machine>
    decreases p.len(),
{
    if p.len() == 0 {
        Some(m)
    } else {
        match step(h, m, p[0]) {
            Some(next) => run(h, p.drop_first(), next),
            None => None,
        }
    }
}

/// Running two programs one after the other is running their concatenation.
pub proof fn lemma_run_concat(
    h: spec_fn(Seq<u8>) -> Seq<u8>,
    p: Seq<Instr>,
    q: Seq<Instr>,
    m: Machine,
)
    ensures
        run(h, p + q, m) == match run(h, p, m) {
            Some(mid) => run(h, q, mid),
            None => None,
        },
    decreases p.len(),
{
    if p.len() == 0 {
        assert(p + q =~= q);
    } else {
        assert((p + q).drop_first() =~= p.drop_first() + q);
        match step(h, m, p[0]) {
            Some(next) => lemma_run_concat(h, p.drop_first(), q, next),
            None => {},
        }
    }
}

/// A program of one instruction is a single step.
pub proof fn lemma_run_one(h: spec_fn(Seq<u8>) -> Seq<u8>, i: Instr, m: Machine)
    ensures
        run(h, seq![i], m) == step(h, m, i),
{
    reveal_with_fuel(run, 2);
    assert(seq![i].drop_first() =~= Seq::<Instr>::empty());
}

/// A program of two instructions is two steps.
pub proof fn lemma_run_two(h: spec_fn(Seq<u8>) -> Seq<u8>, a: Instr, b: Instr, m: Machine)
    ensures
        run(h, seq![a, b], m) == match step(h, m, a) {
            Some(mid) => step(h, mid, b),
            None => None,
        },
{
    lemma_run_concat(h, seq![a], seq![b], m);
    assert(seq![a] + seq![b] =~= seq![a, b]);
    lemma_run_one(h, a, m);
    match step(h, m, a) {
        Some(mid) => lemma_run_one(h, b, mid),
        None => {},
    }
}

/// Running a program with one more instruction is one more step.
pub proof fn lemma_run_push(h: spec_fn(Seq<u8>) -> Seq<u8>, p: Seq<Instr>, i: Instr, m: Machine)
    ensures
        run(h, p.push(i), m) == match run(h, p, m) {
            Some(mid) => step(h, mid, i),
            None => None,
        },
{
    lemma_run_concat(h, p, seq![i], m);
    assert(p + seq![i] =~= p.push(i));
    match run(h, p, m) {
        Some(mid) => lemma_run_one(h, i, mid),
        None => {},
    }
}

/// A concatenation followed by an explicit failure fails, whatever the
/// stack holds: no instruction of the pair lets the program succeed early.
pub proof fn lemma_cat_then_return_fails(h: spec_fn(Seq<u8>) -> Seq<u8>, main: Seq<Seq<u8>>)
    ensures
        run(h, seq![Instr::Op(Opcode::Cat), Instr::Op(Opcode::Return)], start(main)) is None,
{
    lemma_run_two(h, Instr::Op(Opcode::Cat), Instr::Op(Opcode::Return), start(main));
    lemma_start_executing(main);
}

/// A machine with one open branch executes exactly when that branch does.
pub proof fn lemma_one_branch(m: Machine, b: bool)
    requires
        m.branches == seq![b],
    ensures
        executing(m) == b,
{
    if !b {
        assert(m.branches[0] == false);
    } else {
        assert forall|i: int| 0 <= i < m.branches.len() implies m.branches[i] != false by {}
    }
}

/// A machine with no open branch executes.
pub proof fn lemma_no_branch(m: Machine)
    requires
        m.branches == Seq::<bool>::empty(),
    ensures
        executing(m),
{
}

proof fn lemma_magnitude_value(n: nat)
    ensures
        le_value(le_magnitude(n)) == n,
        n > 0 ==> le_magnitude(n).len() > 0 && le_magnitude(n).last() != 0,
        n == 0 ==> le_magnitude(n).len() == 0,
    decreases n,
{
    if n > 0 {
        lemma_magnitude_value(n / 256);
        let m = le_magnitude(n);
        let rest = le_magnitude(n / 256);
        assert(m.drop_first() =~= rest);
        if n / 256 == 0 {
            assert(m.last() == (n % 256) as u8);
        } else {
            assert(m.last() == rest.last());
        }
    }
}

/// Distinct numbers have distinct encodings.
pub proof fn lemma_encode_injective(a: nat, b: nat)
    requires
        encode_num(a) == encode_num(b),
    ensures
        a == b,
{
    lemma_magnitude_value(a);
    lemma_magnitude_value(b);
    let ma = le_magnitude(a);
    let mb = le_magnitude(b);
    let pa = ma.len() > 0 && ma.last() >= 0x80;
    let pb = mb.len() > 0 && mb.last() >= 0x80;
    if pa && pb {
        assert(ma =~= ma.push(0u8).drop_last());
        assert(mb =~= mb.push(0u8).drop_last());
    } else if pa {
        assert(mb == ma.push(0u8));
        assert(mb.last() == 0);
    } else if pb {
        assert(ma == mb.push(0u8));
        assert(ma.last() == 0);
    }
}

/// Small numbers read back as themselves.
pub proof fn lemma_small_num(v: nat)
    requires
        v < 128,
    ensures
        decode_num(encode_num(v)) == Some(v as int),
        v == 0 ==> encode_num(v) == Seq::<u8>::empty(),
        v > 0 ==> encode_num(v) == seq![v as u8],
{
    assert(le_magnitude(0) == Seq::<u8>::empty());
    if v > 0 {
        assert(v / 256 == 0);
        assert(le_magnitude(v) =~= seq![v as u8]);
        assert(seq![v as u8].drop_first() =~= Seq::<u8>::empty());
        assert(le_value(Seq::<u8>::empty()) == 0);
        assert(le_value(seq![v as u8]) == seq![v as u8][0] as nat + 256 * le_value(
            seq![v as u8].drop_first(),
        ));
        assert(le_value(seq![v as u8]) == v);
    }
}

/// A machine with no open branch executes.
pub proof fn lemma_start_executing(main: Seq<Seq<u8>>)
    ensures
        executing(start(main)),
{
    assert(!start(main).branches.contains(false));
}

} // verus!
