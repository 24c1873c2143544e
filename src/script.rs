use vstd::prelude::*;

verus! {

/// The opcodes of the target machine that the gadgets emit.
#[derive(Clone, Copy, Debug, PartialEq, Eq, Structural)]
pub enum Opcode {
    /// Replace the top item by its SHA-256 digest.
    Sha256,
    /// Replace the top two items `a b` by `a || b`.
    Cat,
    /// Push the byte length of the top item, as a number.
    Size,
    /// Replace the top two items by a boolean: are they byte-for-byte equal.
    Equal,
    /// `Equal` followed by `Verify`.
    EqualVerify,
    /// Pop the top item and fail unless it is true.
    Verify,
    /// Replace the top two numbers `a b` by the boolean `a < b`.
    LessThan,
    /// Replace the top number by its absolute value, minimally encoded.
    Abs,
    /// Pop a number `n` and push a copy of the item `n` places below the top.
    Pick,
    Drop,
    Dup,
    Swap,
    Over,
    /// Move the third item to the top.
    Rot,
    /// Move the top item to the auxiliary stack.
    ToAltStack,
    /// Move the top item of the auxiliary stack to the main stack.
    FromAltStack,
    If,
    Else,
    EndIf,
    /// Fail at once.
    Return,
}

/// One instruction: an opcode or a literal push.
#[derive(Clone, Debug, PartialEq, Eq)]
pub enum Instruction {
    Op(Opcode),
    Push(Vec<u8>),
}

/// The mathematical form of an instruction.
pub enum Instr {
    Op(Opcode),
    Push(Seq<u8>),
}

impl View for Instruction {
    type V = Instr;

    open spec fn view(&self) -> Instr {
        match self {
            Instruction::Op(op) => Instr::Op(*op),
            Instruction::Push(bytes) => Instr::Push(bytes@),
        }
    }
}

/// The largest item the machine accepts, in bytes.
pub const MAX_PUSH_SIZE: usize = 520;

/// A push holds at most `MAX_PUSH_SIZE` bytes.
pub open spec fn push_fits(i: Instr) -> bool {
    match i {
        Instr::Push(bytes) => bytes.len() <= MAX_PUSH_SIZE,
        Instr::Op(_) => true,
    }
}

/// The byte of each opcode in the machine's encoding.
pub open spec fn opcode_byte(op: Opcode) -> u8 {
    match op {
        Opcode::Sha256 => 0xa8,
        Opcode::Cat => 0x7e,
        Opcode::Size => 0x82,
        Opcode::Equal => 0x87,
        Opcode::EqualVerify => 0x88,
        Opcode::Verify => 0x69,
        Opcode::LessThan => 0x9f,
        Opcode::Abs => 0x90,
        Opcode::Pick => 0x79,
        Opcode::Drop => 0x75,
        Opcode::Dup => 0x76,
        Opcode::Swap => 0x7c,
        Opcode::Over => 0x78,
        Opcode::Rot => 0x7b,
        Opcode::ToAltStack => 0x6b,
        Opcode::FromAltStack => 0x6c,
        Opcode::If => 0x63,
        Opcode::Else => 0x67,
        Opcode::EndIf => 0x68,
        Opcode::Return => 0x6a,
    }
}

/// A push in the machine's encoding: the length as its own opcode below
/// `0x4c`, else behind `OP_PUSHDATA1` (one length byte) or `OP_PUSHDATA2`
/// (two, little-endian), then the bytes.
pub open spec fn push_encoding(data: Seq<u8>) -> Seq<u8> {
    let n = data.len();
    if n < 0x4c {
        seq![n as u8] + data
    } else if n < 0x100 {
        seq![0x4cu8, n as u8] + data
    } else {
        seq![0x4du8, (n % 0x100) as u8, (n / 0x100) as u8] + data
    }
}

/// An instruction in the machine's encoding. A push takes its minimal form:
/// the single bytes 1 to 16 and `0x81` (the number -1) have opcodes of their
/// own (`OP_1` .. `OP_16`, `OP_1NEGATE`); the empty push is `OP_0`.
pub open spec fn encode_instr(i: Instr) -> Seq<u8> {
    match i {
        Instr::Op(op) => seq![opcode_byte(op)],
        Instr::Push(bytes) => if bytes.len() == 1 && 1 <= bytes[0] <= 16 {
            seq![(0x50 + bytes[0]) as u8]
        } else if bytes.len() == 1 && bytes[0] == 0x81 {
            seq![0x4fu8]
        } else {
            push_encoding(bytes)
        },
    }
}

/// The machine's encoding of a program: each instruction's encoding in turn.
pub open spec fn encode_program(p: Seq<Instr>) -> Seq<u8>
    decreases p.len(),
{
    if p.len() == 0 {
        Seq::empty()
    } else {
        encode_program(p.drop_last()) + encode_instr(p.last())
    }
}

impl Opcode {
    /// The byte of the opcode.
    pub fn byte(self) -> (r: u8)
        ensures
            r == opcode_byte(self),
    {
        match self {
            Opcode::Sha256 => 0xa8,
            Opcode::Cat => 0x7e,
            Opcode::Size => 0x82,
            Opcode::Equal => 0x87,
            Opcode::EqualVerify => 0x88,
            Opcode::Verify => 0x69,
            Opcode::LessThan => 0x9f,
        Opcode::Abs => 0x90,
            Opcode::Pick => 0x79,
            Opcode::Drop => 0x75,
            Opcode::Dup => 0x76,
            Opcode::Swap => 0x7c,
            Opcode::Over => 0x78,
            Opcode::Rot => 0x7b,
            Opcode::ToAltStack => 0x6b,
            Opcode::FromAltStack => 0x6c,
            Opcode::If => 0x63,
            Opcode::Else => 0x67,
            Opcode::EndIf => 0x68,
            Opcode::Return => 0x6a,
        }
    }
}

/// Relies on `bitcoin::ScriptBuf::push_slice`: appends the length prefix
/// that `push_encoding` states, then the bytes.
#[verifier::external_body]
fn script_push_slice(script: &mut Vec<u8>, data: &Vec<u8>)
    requires
        data@.len() <= MAX_PUSH_SIZE,
    ensures
        final(script)@ == old(script)@ + push_encoding(data@),
{
    let mut buf = bitcoin::ScriptBuf::from_bytes(std::mem::take(script));
    let bytes = bitcoin::script::PushBytesBuf::try_from(data.clone()).unwrap();
    buf.push_slice(bytes);
    *script = buf.into_bytes();
}

/// An ordered sequence of machine instructions. Programs only grow by
/// concatenation: no fragment changes another.
#[derive(Clone, Debug, PartialEq, Eq)]
pub struct Program {
    instructions: Vec<Instruction>,
}

impl View for Program {
    type V = Seq<Instr>;

    closed spec fn view(&self) -> Seq<Instr> {
        self.instructions@.map_values(|i: Instruction| i@)
    }
}

impl Program {
    /// The empty program.
    pub fn new() -> (r: Program)
        ensures
            r@ == Seq::<Instr>::empty(),
    {
        let r = Program { instructions: Vec::new() };
        assert(r@ =~= Seq::<Instr>::empty());
        r
    }

    /// Appends an opcode.
    pub fn op(&mut self, op: Opcode)
        ensures
            final(self)@ == old(self)@.push(Instr::Op(op)),
    {
        self.instructions.push(Instruction::Op(op));
        assert(final(self)@ =~= old(self)@.push(Instr::Op(op)));
    }

    /// Appends a literal push of `bytes`.
    pub fn push_bytes(&mut self, bytes: Vec<u8>)
        ensures
            final(self)@ == old(self)@.push(Instr::Push(bytes@)),
    {
        let ghost b = bytes@;
        self.instructions.push(Instruction::Push(bytes));
        assert(final(self)@ =~= old(self)@.push(Instr::Push(b)));
    }

    /// Appends the instructions of `other`.
    pub fn append(&mut self, other: Program)
        ensures
            final(self)@ == old(self)@ + other@,
    {
        let mut other = other;
        let ghost o = other@;
        self.instructions.append(&mut other.instructions);
        assert(final(self)@ =~= old(self)@ + o);
    }

    /// The number of instructions.
    pub fn len(&self) -> (r: usize)
        ensures
            r == self@.len(),
    {
        self.instructions.len()
    }

    /// The program in the machine's encoding, as script bytes; `None` when a
    /// push holds more than `MAX_PUSH_SIZE` bytes.
    pub fn to_script_bytes(&self) -> (r: Option<Vec<u8>>)
        ensures
            r.is_some() <==> forall|j: int| 0 <= j < self@.len() ==> push_fits(#[trigger] self@[j]),
            r.is_some() ==> r.unwrap()@ == encode_program(self@),
    {
        let mut r: Vec<u8> = Vec::new();
        let mut i: usize = 0;
        while i < self.instructions.len()
            invariant
                i <= self@.len(),
                self@.len() == self.instructions@.len(),
                forall|j: int| 0 <= j < i ==> push_fits(#[trigger] self@[j]),
                r@ == encode_program(self@.subrange(0, i as int)),
            decreases self.instructions.len() - i,
        {
            assert(self@.subrange(0, i + 1).drop_last() =~= self@.subrange(0, i as int));
            assert(self@[i as int] == self.instructions@[i as int]@);
            match &self.instructions[i] {
                Instruction::Op(op) => {
                    r.push(op.byte());
                },
                Instruction::Push(bytes) => {
                    if bytes.len() > MAX_PUSH_SIZE {
                        return None;
                    }
                    if bytes.len() == 1 && 1 <= bytes[0] && bytes[0] <= 16 {
                        r.push(0x50 + bytes[0]);
                    } else if bytes.len() == 1 && bytes[0] == 0x81 {
                        r.push(0x4f);
                    } else {
                        script_push_slice(&mut r, bytes);
                    }
                },
            }
            i = i + 1;
        }
        assert(self@.subrange(0, i as int) =~= self@);
        Some(r)
    }

    /// The instructions, in order.
    pub fn instructions(&self) -> (r: &Vec<Instruction>)
        ensures
            r@.len() == self@.len(),
            forall|i: int| 0 <= i < r@.len() ==> #[trigger] r@[i]@ == self@[i],
    {
        &self.instructions
    }
}

} // verus!
