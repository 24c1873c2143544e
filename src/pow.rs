use vstd::prelude::*;
use crate::hash::{sha256, sha256_of};
use crate::machine::{encode_num, le_magnitude};
use crate::script::{Instr, Opcode, Program};

verus! {

/// The `k` little-endian bytes of `n` (higher bytes are dropped).
pub open spec fn le_fixed(n: nat, k: nat) -> Seq<u8>
    decreases k,
{
    if k == 0 {
        Seq::empty()
    } else {
        seq![(n % 256) as u8] + le_fixed(n / 256, (k - 1) as nat)
    }
}

/// The 8-byte little-endian form of a nonce.
pub open spec fn nonce_bytes(nonce: u64) -> Seq<u8> {
    le_fixed(nonce as nat, 8)
}

/// `digest` starts with at least `n_bits` zero bits.
pub open spec fn meets_difficulty(digest: Seq<u8>, n_bits: nat) -> bool {
    &&& n_bits <= 8 * digest.len()
    &&& forall|i: int| 0 <= i < n_bits / 8 ==> #[trigger] digest[i] == 0
    &&& n_bits % 8 != 0 ==> digest[(n_bits / 8) as int] >> ((8 - n_bits % 8) as u8) == 0
}

/// The number of leading zero bits that `verify_pow(n_bits)` accepts: the
/// partial byte must lie below `2^(7 - n_bits % 8)`, one bit more than
/// `n_bits` when `n_bits` is not a multiple of 8.
pub open spec fn checked_zero_bits(n_bits: nat) -> nat {
    if n_bits % 8 == 0 {
        n_bits
    } else {
        n_bits + 1
    }
}

/// The length of the suffix for a difficulty of `n_bits`.
pub open spec fn suffix_len(n_bits: nat) -> int {
    32 - (n_bits + 7) / 8
}

/// The bound that the partial byte must stay under.
pub open spec fn partial_bound(n_bits: nat) -> u8 {
    1u8 << ((7 - n_bits % 8) as u8)
}

/// `q` zero bytes.
pub open spec fn zeros(q: nat) -> Seq<u8> {
    Seq::new(q, |i: int| 0u8)
}

/// Checks that the nonce under the suffix is 8 bytes long, keeping it.
pub open spec fn check_nonce_program() -> Seq<Instr> {
    seq![
        Instr::Push(encode_num(1)),
        Instr::Op(Opcode::Pick),
        Instr::Op(Opcode::Size),
        Instr::Push(encode_num(8)),
        Instr::Op(Opcode::EqualVerify),
        Instr::Op(Opcode::Drop),
    ]
}

/// Checks that the suffix on top has the length that `n_bits` asks for.
pub open spec fn check_suffix_program(n_bits: nat) -> Seq<Instr> {
    seq![
        Instr::Op(Opcode::Size),
        Instr::Push(encode_num(suffix_len(n_bits) as nat)),
        Instr::Op(Opcode::EqualVerify),
    ]
}

/// Turns `channel nonce suffix` into `new_channel suffix`.
pub open spec fn new_channel_program() -> Seq<Instr> {
    seq![
        Instr::Op(Opcode::Rot),
        Instr::Op(Opcode::Rot),
        Instr::Op(Opcode::Cat),
        Instr::Op(Opcode::Sha256),
        Instr::Op(Opcode::Swap),
    ]
}

/// Writes a partial-byte item that is the single byte 0 as the empty item,
/// the machine's shortest form of zero, so that the checks that follow see
/// one form of each value.
pub open spec fn normalize_zero_program() -> Seq<Instr> {
    seq![
        Instr::Op(Opcode::Dup),
        Instr::Push(zeros(1)),
        Instr::Op(Opcode::Equal),
        Instr::Op(Opcode::If),
        Instr::Op(Opcode::Drop),
        Instr::Push(encode_num(0)),
        Instr::Op(Opcode::EndIf),
    ]
}

/// Brings the partial byte back and requires it to be the minimal encoding
/// of a non-negative number below the bound; writes zero as the byte 0 and
/// appends the byte to the zero prefix.
pub open spec fn partial_byte_program(n_bits: nat) -> Seq<Instr> {
    seq![
        Instr::Op(Opcode::FromAltStack),
        Instr::Op(Opcode::Dup),
        Instr::Op(Opcode::Dup),
        Instr::Op(Opcode::Abs),
        Instr::Op(Opcode::EqualVerify),
        Instr::Op(Opcode::Dup),
        Instr::Push(encode_num(partial_bound(n_bits) as nat)),
        Instr::Op(Opcode::LessThan),
        Instr::Op(Opcode::Verify),
        Instr::Op(Opcode::Dup),
        Instr::Push(encode_num(0)),
        Instr::Op(Opcode::Equal),
        Instr::Op(Opcode::If),
        Instr::Op(Opcode::Drop),
        Instr::Push(zeros(1)),
        Instr::Op(Opcode::EndIf),
        Instr::Op(Opcode::Cat),
    ]
}

/// Puts the suffix after the prefix and requires the result to be the new
/// channel, which stays.
pub open spec fn compare_program() -> Seq<Instr> {
    seq![
        Instr::Op(Opcode::Swap),
        Instr::Op(Opcode::Cat),
        Instr::Op(Opcode::Over),
        Instr::Op(Opcode::EqualVerify),
    ]
}

/// The proof-of-work check for `n_bits`. Stack in: channel, nonce, suffix,
/// and the partial byte on top when `n_bits % 8 != 0`. Stack out:
/// `hash(channel || nonce)`.
pub open spec fn verify_pow_program(n_bits: nat) -> Seq<Instr> {
    let partial = n_bits % 8 != 0;
    (if partial {
        normalize_zero_program() + seq![Instr::Op(Opcode::ToAltStack)]
    } else {
        Seq::empty()
    }) + check_nonce_program() + check_suffix_program(n_bits) + new_channel_program() + seq![
        Instr::Push(zeros(n_bits / 8)),
    ] + (if partial {
        partial_byte_program(n_bits)
    } else {
        Seq::empty()
    }) + compare_program()
}

/// The witness pushes: the nonce, the suffix and, when `n_bits % 8 != 0`,
/// the partial byte as a number.
pub open spec fn pow_witness_program(nonce: u64, suffix: Seq<u8>, partial: u8, n_bits: nat) -> Seq<
    Instr,
> {
    seq![Instr::Push(nonce_bytes(nonce)), Instr::Push(suffix)] + if n_bits % 8 != 0 {
        seq![Instr::Push(encode_num(partial as nat))]
    } else {
        Seq::empty()
    }
}

/// The witness for a digest: its bytes after the first `ceil(n_bits / 8)`
/// as the suffix, and its byte at `n_bits / 8` as the partial byte.
pub open spec fn pow_hint_program(digest: Seq<u8>, nonce: u64, n_bits: nat) -> Seq<Instr> {
    pow_witness_program(
        nonce,
        digest.subrange(((n_bits + 7) / 8) as int, 32),
        digest[(n_bits / 8) as int],
        n_bits,
    )
}

/// The machine's encoding of a number below 256.
fn num_bytes(n: u8) -> (r: Vec<u8>)
    ensures
        r@ == encode_num(n as nat),
{
    let mut r: Vec<u8> = Vec::new();
    assert(le_magnitude(0) == Seq::<u8>::empty());
    if n > 0 {
        r.push(n);
        assert(le_magnitude(n as nat) =~= seq![n]) by {
            assert(le_magnitude((n as nat) / 256) == Seq::<u8>::empty());
        }
        if n >= 0x80 {
            r.push(0);
        }
    }
    r
}

fn push_num(p: &mut Program, n: u8)
    ensures
        final(p)@ == old(p)@.push(Instr::Push(encode_num(n as nat))),
{
    p.push_bytes(num_bytes(n));
}

/// The 8-byte little-endian form of a nonce.
pub fn nonce_to_bytes(nonce: u64) -> (r: Vec<u8>)
    ensures
        r@ == nonce_bytes(nonce),
{
    let mut r: Vec<u8> = Vec::new();
    let mut x: u64 = nonce;
    let mut i: usize = 0;
    while i < 8
        invariant
            i <= 8,
            le_fixed(nonce as nat, 8) == r@ + le_fixed(x as nat, (8 - i) as nat),
        decreases 8 - i,
    {
        let ghost before = r@;
        r.push((x % 256) as u8);
        proof {
            let rest = le_fixed((x / 256) as nat, (8 - i - 1) as nat);
            assert(le_fixed(x as nat, (8 - i) as nat) == seq![(x % 256) as u8] + rest);
            assert(before + (seq![(x % 256) as u8] + rest) =~= r@ + rest);
        }
        x = x / 256;
        i = i + 1;
    }
    assert(r@ + le_fixed(x as nat, 0) =~= r@);
    r
}

/// `SHA-256(channel || nonce)`, the nonce as 8 little-endian bytes.
pub fn hash_with_nonce(channel_digest: &Vec<u8>, nonce: u64) -> (r: Vec<u8>)
    ensures
        r@ == sha256_of(channel_digest@ + nonce_bytes(nonce)),
        r@.len() == 32,
{
    let mut data = channel_digest.clone();
    let mut tail = nonce_to_bytes(nonce);
    data.append(&mut tail);
    sha256(&data)
}

/// Whether `digest` starts with at least `n_bits` zero bits.
pub fn has_leading_zeros(digest: &Vec<u8>, n_bits: u32) -> (r: bool)
    ensures
        r == meets_difficulty(digest@, n_bits as nat),
{
    let q = (n_bits / 8) as usize;
    let rem = n_bits % 8;
    if q > digest.len() || (q == digest.len() && rem != 0) {
        return false;
    }
    let mut i: usize = 0;
    while i < q
        invariant
            q == n_bits / 8,
            q <= digest@.len(),
            i <= q,
            forall|j: int| 0 <= j < i ==> digest@[j] == 0,
        decreases q - i,
    {
        if digest[i] != 0 {
            return false;
        }
        i = i + 1;
    }
    if rem != 0 {
        digest[q] >> ((8 - rem) as u8) == 0
    } else {
        true
    }
}

/// Finds the smallest nonce whose `hash_with_nonce` starts with `n_bits` zero
/// bits, scanning upwards from 0; `None` when no 64-bit nonce does.
pub fn grind_find_nonce(channel_digest: &Vec<u8>, n_bits: u32) -> (r: Option<u64>)
    ensures
        r.is_some() ==> meets_difficulty(
            sha256_of(channel_digest@ + nonce_bytes(r.unwrap())),
            n_bits as nat,
        ),
        forall|m: u64|
            (r.is_none() || m < r.unwrap()) ==> !meets_difficulty(
                #[trigger] sha256_of(channel_digest@ + nonce_bytes(m)),
                n_bits as nat,
            ),
{
    let mut nonce: u64 = 0;
    loop
        invariant
            forall|m: u64|
                m < nonce ==> !meets_difficulty(
                    #[trigger] sha256_of(channel_digest@ + nonce_bytes(m)),
                    n_bits as nat,
                ),
        decreases u64::MAX - nonce,
    {
        let digest = hash_with_nonce(channel_digest, nonce);
        if has_leading_zeros(&digest, n_bits) {
            return Some(nonce);
        }
        if nonce == u64::MAX {
            assert forall|m: u64| !meets_difficulty(
                #[trigger] sha256_of(channel_digest@ + nonce_bytes(m)),
                n_bits as nat,
            ) by {
                if m < nonce {
                } else {
                    assert(m == nonce);
                }
            }
            return None;
        }
        nonce = nonce + 1;
    }
}

fn zero_bytes(q: usize) -> (r: Vec<u8>)
    ensures
        r@ == zeros(q as nat),
{
    let mut r: Vec<u8> = Vec::new();
    let mut i: usize = 0;
    while i < q
        invariant
            i <= q,
            r@ =~= zeros(i as nat),
        decreases q - i,
    {
        r.push(0);
        i = i + 1;
    }
    r
}

/// Gadget for proofs of work on the channel.
pub struct PowGadget;

impl PowGadget {
    /// The program that checks a proof of work of `n_bits` against the
    /// channel: it requires an 8-byte nonce, a suffix of
    /// `32 - ceil(n_bits / 8)` bytes and, when `n_bits % 8 != 0`, a
    /// partial-byte item that is the single byte 0 or the minimal encoding of
    /// a number in `0 .. 2^(7 - n_bits % 8)` (so no negative number, and no
    /// negative zero `0x80`); it requires `hash(channel || nonce)` to equal
    /// the zero prefix, the partial byte and the suffix, and leaves that hash
    /// as the new channel.
    pub fn verify_pow(n_bits: usize) -> (r: Program)
        requires
            n_bits <= 256,
        ensures
            r@ == verify_pow_program(n_bits as nat),
    {
        let partial = n_bits % 8 != 0;
        let mut p = Program::new();
        if partial {
            p.op(Opcode::Dup);
            p.push_bytes(zero_bytes(1));
            p.op(Opcode::Equal);
            p.op(Opcode::If);
            p.op(Opcode::Drop);
            push_num(&mut p, 0);
            p.op(Opcode::EndIf);
            p.op(Opcode::ToAltStack);
            assert(p@ =~= normalize_zero_program() + seq![Instr::Op(Opcode::ToAltStack)]);
        }
        let ghost s1 = p@;
        push_num(&mut p, 1);
        p.op(Opcode::Pick);
        p.op(Opcode::Size);
        push_num(&mut p, 8);
        p.op(Opcode::EqualVerify);
        p.op(Opcode::Drop);
        assert(p@ =~= s1 + check_nonce_program());
        let ghost s2 = p@;
        p.op(Opcode::Size);
        push_num(&mut p, (32 - (n_bits + 7) / 8) as u8);
        p.op(Opcode::EqualVerify);
        assert(p@ =~= s2 + check_suffix_program(n_bits as nat));
        let ghost s3 = p@;
        p.op(Opcode::Rot);
        p.op(Opcode::Rot);
        p.op(Opcode::Cat);
        p.op(Opcode::Sha256);
        p.op(Opcode::Swap);
        assert(p@ =~= s3 + new_channel_program());
        p.push_bytes(zero_bytes(n_bits / 8));
        let ghost s4 = p@;
        if partial {
            p.op(Opcode::FromAltStack);
            p.op(Opcode::Dup);
            p.op(Opcode::Dup);
            p.op(Opcode::Abs);
            p.op(Opcode::EqualVerify);
            p.op(Opcode::Dup);
            push_num(&mut p, 1u8 << ((7 - n_bits % 8) as u8));
            p.op(Opcode::LessThan);
            p.op(Opcode::Verify);
            p.op(Opcode::Dup);
            push_num(&mut p, 0);
            p.op(Opcode::Equal);
            p.op(Opcode::If);
            p.op(Opcode::Drop);
            p.push_bytes(zero_bytes(1));
            p.op(Opcode::EndIf);
            p.op(Opcode::Cat);
            assert(p@ =~= s4 + partial_byte_program(n_bits as nat));
        }
        let ghost s5 = p@;
        p.op(Opcode::Swap);
        p.op(Opcode::Cat);
        p.op(Opcode::Over);
        p.op(Opcode::EqualVerify);
        assert(p@ =~= s5 + compare_program());
        assert(p@ =~= verify_pow_program(n_bits as nat));
        p
    }

    /// The witness for `verify_pow(n_bits)`, computed off the machine from
    /// the channel and the nonce: pushes the nonce, the suffix of
    /// `hash(channel || nonce)` and, when `n_bits % 8 != 0`, its partial byte.
    pub fn push_pow_hint(channel_digest: Vec<u8>, nonce: u64, n_bits: usize) -> (r: Program)
        requires
            n_bits <= 256,
        ensures
            r@ == pow_hint_program(
                sha256_of(channel_digest@ + nonce_bytes(nonce)),
                nonce,
                n_bits as nat,
            ),
    {
        let digest = hash_with_nonce(&channel_digest, nonce);
        let mut p = Program::new();
        p.push_bytes(nonce_to_bytes(nonce));
        let start = (n_bits + 7) / 8;
        let mut suffix: Vec<u8> = Vec::new();
        let mut i: usize = start;
        while i < 32
            invariant
                start <= i <= 32,
                digest@.len() == 32,
                suffix@ =~= digest@.subrange(start as int, i as int),
            decreases 32 - i,
        {
            suffix.push(digest[i]);
            i = i + 1;
        }
        p.push_bytes(suffix);
        if n_bits % 8 != 0 {
            push_num(&mut p, digest[n_bits / 8]);
        }
        assert(p@ =~= pow_hint_program(digest@, nonce, n_bits as nat));
        p
    }
}

} // verus!
