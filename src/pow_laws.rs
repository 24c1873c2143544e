use vstd::prelude::*;
use crate::machine::{
    abs_nat, bool_item, decode_num, encode_num, le_magnitude, le_value, lemma_no_branch, lemma_one_branch,
    lemma_run_concat, lemma_run_one, lemma_run_push, lemma_small_num, lemma_encode_injective, run, start, step, truthy,
    Machine,
};
use crate::pow::{
    check_nonce_program, check_suffix_program, normalize_zero_program, compare_program, new_channel_program,
    checked_zero_bits, le_fixed, meets_difficulty, nonce_bytes, partial_bound,
    pow_hint_program, pow_witness_program, partial_byte_program, suffix_len, verify_pow_program,
    zeros,
};
use crate::script::{Instr, Opcode};

verus! {

/// A machine with no open branch.
pub open spec fn mk(main: Seq<Seq<u8>>, alt: Seq<Seq<u8>>) -> Machine {
    Machine { main, alt, branches: Seq::empty() }
}

proof fn lemma_check_nonce(
    h: spec_fn(Seq<u8>) -> Seq<u8>,
    pre: Seq<Seq<u8>>,
    c: Seq<u8>,
    nonce: Seq<u8>,
    x: Seq<u8>,
    alt: Seq<Seq<u8>>,
)
    ensures
        run(h, check_nonce_program(), mk(pre + seq![c, nonce, x], alt)) == if nonce.len() == 8 {
            Some(mk(pre + seq![c, nonce, x], alt))
        } else {
            None
        },
{
    let s = pre + seq![c, nonce, x];
    let e1 = encode_num(1);
    let e8 = encode_num(8);
    lemma_small_num(1);
    let i1 = Instr::Push(e1);
    let i2 = Instr::Op(Opcode::Pick);
    let i3 = Instr::Op(Opcode::Size);
    let i4 = Instr::Push(e8);
    let i5 = Instr::Op(Opcode::EqualVerify);
    let i6 = Instr::Op(Opcode::Drop);
    let m0 = mk(s, alt);
    let m1 = mk(s.push(e1), alt);
    let m2 = mk(s.push(nonce), alt);
    let en = encode_num(nonce.len());
    let m3 = mk(s.push(nonce).push(en), alt);
    let m4 = mk(s.push(nonce).push(en).push(e8), alt);
    lemma_no_branch(m0);
    lemma_no_branch(m1);
    lemma_no_branch(m2);
    lemma_no_branch(m3);
    lemma_no_branch(m4);
    assert(s[s.len() - 2] == nonce);
    assert(m1.main.drop_last() =~= s);
    assert(step(h, m0, i1) == Some(m1));
    assert(step(h, m1, i2) == Some(m2));
    assert(step(h, m2, i3) == Some(m3));
    assert(step(h, m3, i4) == Some(m4));
    assert(m4.main.subrange(0, m4.main.len() - 2) =~= s.push(nonce));
    if nonce.len() == 8 {
        assert(step(h, m4, i5) == Some(m2));
    } else {
        if en == e8 {
            lemma_encode_injective(nonce.len(), 8);
        }
        assert(step(h, m4, i5) is None);
    }
    assert(s.push(nonce).drop_last() =~= s);
    assert(step(h, m2, i6) == Some(m0));
    let e = Seq::<Instr>::empty();
    lemma_run_push(h, e, i1, m0);
    lemma_run_push(h, e.push(i1), i2, m0);
    lemma_run_push(h, e.push(i1).push(i2), i3, m0);
    lemma_run_push(h, e.push(i1).push(i2).push(i3), i4, m0);
    lemma_run_push(h, e.push(i1).push(i2).push(i3).push(i4), i5, m0);
    lemma_run_push(h, e.push(i1).push(i2).push(i3).push(i4).push(i5), i6, m0);
    assert(check_nonce_program() =~= e.push(i1).push(i2).push(i3).push(i4).push(i5).push(i6));
}

proof fn lemma_check_suffix(
    h: spec_fn(Seq<u8>) -> Seq<u8>,
    s: Seq<Seq<u8>>,
    alt: Seq<Seq<u8>>,
    n_bits: nat,
)
    requires
        s.len() >= 1,
        n_bits <= 256,
    ensures
        run(h, check_suffix_program(n_bits), mk(s, alt)) == if s.last().len() == suffix_len(
            n_bits,
        ) {
            Some(mk(s, alt))
        } else {
            None
        },
{
    let en = encode_num(suffix_len(n_bits) as nat);
    let el = encode_num(s.last().len());
    let i1 = Instr::Op(Opcode::Size);
    let i2 = Instr::Push(en);
    let i3 = Instr::Op(Opcode::EqualVerify);
    let m0 = mk(s, alt);
    let m1 = mk(s.push(el), alt);
    let m2 = mk(s.push(el).push(en), alt);
    lemma_no_branch(m0);
    lemma_no_branch(m1);
    lemma_no_branch(m2);
    assert(step(h, m0, i1) == Some(m1));
    assert(step(h, m1, i2) == Some(m2));
    assert(m2.main.subrange(0, m2.main.len() - 2) =~= s);
    if s.last().len() == suffix_len(n_bits) {
        assert(step(h, m2, i3) == Some(m0));
    } else {
        if el == en {
            lemma_encode_injective(s.last().len(), suffix_len(n_bits) as nat);
        }
        assert(step(h, m2, i3) is None);
    }
    let e = Seq::<Instr>::empty();
    lemma_run_push(h, e, i1, m0);
    lemma_run_push(h, e.push(i1), i2, m0);
    lemma_run_push(h, e.push(i1).push(i2), i3, m0);
    assert(check_suffix_program(n_bits) =~= e.push(i1).push(i2).push(i3));
}

proof fn lemma_new_channel(
    h: spec_fn(Seq<u8>) -> Seq<u8>,
    pre: Seq<Seq<u8>>,
    c: Seq<u8>,
    nonce: Seq<u8>,
    x: Seq<u8>,
    alt: Seq<Seq<u8>>,
)
    ensures
        run(h, new_channel_program(), mk(pre + seq![c, nonce, x], alt)) == Some(
            mk(pre + seq![h(c + nonce), x], alt),
        ),
{
    let i1 = Instr::Op(Opcode::Rot);
    let i2 = Instr::Op(Opcode::Cat);
    let i3 = Instr::Op(Opcode::Sha256);
    let i4 = Instr::Op(Opcode::Swap);
    let m0 = mk(pre + seq![c, nonce, x], alt);
    let m1 = mk(pre + seq![nonce, x, c], alt);
    let m2 = mk(pre + seq![x, c, nonce], alt);
    let m3 = mk(pre + seq![x, c + nonce], alt);
    let m4 = mk(pre + seq![x, h(c + nonce)], alt);
    let m5 = mk(pre + seq![h(c + nonce), x], alt);
    lemma_no_branch(m0);
    lemma_no_branch(m1);
    lemma_no_branch(m2);
    lemma_no_branch(m3);
    lemma_no_branch(m4);
    let s0 = m0.main;
    let s1 = m1.main;
    let s2 = m2.main;
    let s3 = m3.main;
    let s4 = m4.main;
    assert(s0.subrange(0, s0.len() - 3).push(s0[s0.len() - 2]).push(s0[s0.len() - 1]).push(
        s0[s0.len() - 3],
    ) =~= s1);
    assert(s1.subrange(0, s1.len() - 3).push(s1[s1.len() - 2]).push(s1[s1.len() - 1]).push(
        s1[s1.len() - 3],
    ) =~= s2);
    assert(s2.subrange(0, s2.len() - 2).push(s2[s2.len() - 2] + s2[s2.len() - 1]) =~= s3);
    assert(s3.drop_last().push(h(s3.last())) =~= s4);
    assert(s4.subrange(0, s4.len() - 2).push(s4[s4.len() - 1]).push(s4[s4.len() - 2])
        =~= m5.main);
    assert(step(h, m0, i1) == Some(m1));
    assert(step(h, m1, i1) == Some(m2));
    assert(step(h, m2, i2) == Some(m3));
    assert(step(h, m3, i3) == Some(m4));
    assert(step(h, m4, i4) == Some(m5));
    let e = Seq::<Instr>::empty();
    lemma_run_push(h, e, i1, m0);
    lemma_run_push(h, e.push(i1), i1, m0);
    lemma_run_push(h, e.push(i1).push(i1), i2, m0);
    lemma_run_push(h, e.push(i1).push(i1).push(i2), i3, m0);
    lemma_run_push(h, e.push(i1).push(i1).push(i2).push(i3), i4, m0);
    assert(new_channel_program() =~= e.push(i1).push(i1).push(i2).push(i3).push(i4));
}

proof fn lemma_compare(
    h: spec_fn(Seq<u8>) -> Seq<u8>,
    pre: Seq<Seq<u8>>,
    d: Seq<u8>,
    x: Seq<u8>,
    prefix: Seq<u8>,
    alt: Seq<Seq<u8>>,
)
    ensures
        run(h, compare_program(), mk(pre + seq![d, x, prefix], alt)) == if prefix + x == d {
            Some(mk(pre.push(d), alt))
        } else {
            None
        },
{
    let i1 = Instr::Op(Opcode::Swap);
    let i2 = Instr::Op(Opcode::Cat);
    let i3 = Instr::Op(Opcode::Over);
    let i4 = Instr::Op(Opcode::EqualVerify);
    let m0 = mk(pre + seq![d, x, prefix], alt);
    let m1 = mk(pre + seq![d, prefix, x], alt);
    let m2 = mk(pre + seq![d, prefix + x], alt);
    let m3 = mk(pre + seq![d, prefix + x, d], alt);
    lemma_no_branch(m0);
    lemma_no_branch(m1);
    lemma_no_branch(m2);
    lemma_no_branch(m3);
    let s0 = m0.main;
    let s1 = m1.main;
    let s2 = m2.main;
    let s3 = m3.main;
    assert(s0.subrange(0, s0.len() - 2).push(s0[s0.len() - 1]).push(s0[s0.len() - 2])
        =~= s1);
    assert(s1.subrange(0, s1.len() - 2).push(s1[s1.len() - 2] + s1[s1.len() - 1]) =~= s2);
    assert(s2.push(s2[s2.len() - 2]) =~= s3);
    assert(s3.subrange(0, s3.len() - 2) =~= pre.push(d));
    assert(step(h, m0, i1) == Some(m1));
    assert(step(h, m1, i2) == Some(m2));
    assert(step(h, m2, i3) == Some(m3));
    let e = Seq::<Instr>::empty();
    lemma_run_push(h, e, i1, m0);
    lemma_run_push(h, e.push(i1), i2, m0);
    lemma_run_push(h, e.push(i1).push(i2), i3, m0);
    lemma_run_push(h, e.push(i1).push(i2).push(i3), i4, m0);
    assert(compare_program() =~= e.push(i1).push(i2).push(i3).push(i4));
}

/// A partial-byte item in shortest form passes the check: it is the minimal
/// encoding of a non-negative number below the bound.
pub open spec fn minimal_partial_ok(m: Seq<u8>, n_bits: nat) -> bool {
    &&& decode_num(m) is Some
    &&& m == encode_num(abs_nat(decode_num(m).unwrap()))
    &&& decode_num(m).unwrap() < partial_bound(n_bits) as int
}

/// The byte a partial-byte item in shortest form stands for: zero, the empty
/// item, is written as the byte 0.
pub open spec fn minimal_fixed_byte(m: Seq<u8>) -> Seq<u8> {
    if m == encode_num(0) {
        zeros(1)
    } else {
        m
    }
}

/// The shortest form of a partial-byte item: the single byte 0 becomes the
/// empty item.
pub open spec fn normalize_zero(m: Seq<u8>) -> Seq<u8> {
    if m == zeros(1) {
        encode_num(0)
    } else {
        m
    }
}

/// The partial-byte item passes the check: it is the single byte 0, or the
/// minimal encoding of a non-negative number below the bound.
pub open spec fn partial_ok(m: Seq<u8>, n_bits: nat) -> bool {
    minimal_partial_ok(normalize_zero(m), n_bits)
}

/// The byte the partial-byte item stands for: the empty item and the single
/// byte 0 both stand for the byte 0.
pub open spec fn fixed_byte(m: Seq<u8>) -> Seq<u8> {
    minimal_fixed_byte(normalize_zero(m))
}

/// Which one-byte partial-byte items pass: the single byte 0 passes and
/// stands for the byte 0, and no byte of `0x80` or more (negative numbers and
/// negative zero) passes, whatever the bound.
pub proof fn lemma_one_byte_partial_items(n_bits: nat, b: u8)
    requires
        n_bits % 8 != 0,
    ensures
        partial_ok(seq![0u8], n_bits),
        fixed_byte(seq![0u8]) == seq![0u8],
        b >= 0x80 ==> !partial_ok(seq![b], n_bits),
{
    lemma_partial_bound_small(n_bits);
    lemma_small_num(0);
    assert(zeros(1) =~= seq![0u8]);
    assert(le_value(Seq::<u8>::empty()) == 0);
    if b >= 0x80 {
        let m = seq![b];
        assert(m != zeros(1));
        let low = (b - 0x80) as u8;
        assert(m.drop_last() =~= Seq::<u8>::empty());
        assert(m.drop_last().push(low) =~= seq![low]);
        assert(seq![low].drop_first() =~= Seq::<u8>::empty());
        assert(le_value(seq![low]) == low as nat + 256 * le_value(seq![low].drop_first()));
        assert(decode_num(m) == Some(-(low as int)));
        assert(abs_nat(-(low as int)) == low as nat);
        lemma_small_num(low as nat);
    }
}

/// The normalising program replaces the top item by its shortest form.
proof fn lemma_normalize_zero(
    h: spec_fn(Seq<u8>) -> Seq<u8>,
    s: Seq<Seq<u8>>,
    alt: Seq<Seq<u8>>,
    m: Seq<u8>,
)
    ensures
        run(h, normalize_zero_program(), mk(s.push(m), alt)) == Some(
            mk(s.push(normalize_zero(m)), alt),
        ),
{
    let z1 = zeros(1);
    let e0 = encode_num(0);
    let is_zero = m == z1;
    let q = s.push(m);
    let i1 = Instr::Op(Opcode::Dup);
    let i2 = Instr::Push(z1);
    let i3 = Instr::Op(Opcode::Equal);
    let i4 = Instr::Op(Opcode::If);
    let i5 = Instr::Op(Opcode::Drop);
    let i6 = Instr::Push(e0);
    let i7 = Instr::Op(Opcode::EndIf);
    let m0 = mk(q, alt);
    let m1 = mk(q.push(m), alt);
    let m2 = mk(q.push(m).push(z1), alt);
    let m3 = mk(q.push(bool_item(is_zero)), alt);
    let m4 = Machine { main: q, alt, branches: seq![is_zero] };
    let m5 = if is_zero {
        Machine { main: s, alt, branches: seq![is_zero] }
    } else {
        m4
    };
    let m6 = Machine { main: s.push(normalize_zero(m)), alt, branches: seq![is_zero] };
    let m7 = mk(s.push(normalize_zero(m)), alt);
    lemma_no_branch(m0);
    lemma_no_branch(m1);
    lemma_no_branch(m2);
    lemma_no_branch(m3);
    lemma_one_branch(m4, is_zero);
    lemma_one_branch(m5, is_zero);
    assert(step(h, m0, i1) == Some(m1));
    assert(step(h, m1, i2) == Some(m2));
    let s2 = m2.main;
    assert(s2.subrange(0, s2.len() - 2) =~= q);
    assert(step(h, m2, i3) == Some(m3));
    assert(q.push(bool_item(is_zero)).drop_last() =~= q);
    assert(step(h, m3, i4) == Some(m4));
    assert(q.drop_last() =~= s);
    assert(step(h, m4, i5) == Some(m5));
    assert(step(h, m5, i6) == Some(m6));
    assert(seq![is_zero].drop_last() =~= Seq::<bool>::empty());
    assert(step(h, m6, i7) == Some(m7));
    let e = Seq::<Instr>::empty();
    let p1 = e.push(i1);
    let p2 = p1.push(i2);
    let p3 = p2.push(i3);
    let p4 = p3.push(i4);
    let p5 = p4.push(i5);
    let p6 = p5.push(i6);
    let p7 = p6.push(i7);
    lemma_run_push(h, e, i1, m0);
    lemma_run_push(h, p1, i2, m0);
    lemma_run_push(h, p2, i3, m0);
    lemma_run_push(h, p3, i4, m0);
    lemma_run_push(h, p4, i5, m0);
    lemma_run_push(h, p5, i6, m0);
    lemma_run_push(h, p6, i7, m0);
    assert(normalize_zero_program() =~= p7);
}

proof fn lemma_partial_bound_small(n_bits: nat)
    requires
        n_bits % 8 != 0,
    ensures
        1 <= partial_bound(n_bits) <= 64,
{
    let b = partial_bound(n_bits);
    let k = (7 - n_bits % 8) as u8;
    assert(k < 7);
    assert(b == 1u8 << k);
    assert(1 <= b <= 64) by (bit_vector)
        requires
            b == 1u8 << k,
            k < 7,
    ;
}

/// A partial-byte item in shortest form comes back from the auxiliary stack,
/// and the run goes on, with its byte appended to the prefix, exactly when it
/// passes the check.
proof fn lemma_partial_byte(
    h: spec_fn(Seq<u8>) -> Seq<u8>,
    t: Seq<Seq<u8>>,
    z: Seq<u8>,
    alt: Seq<Seq<u8>>,
    m: Seq<u8>,
    n_bits: nat,
)
    requires
        n_bits % 8 != 0,
    ensures
        run(h, partial_byte_program(n_bits), mk(t.push(z), alt.push(m))) == if minimal_partial_ok(
            m,
            n_bits,
        ) {
            Some(mk(t.push(z + minimal_fixed_byte(m)), alt))
        } else {
            None
        },
{
    let b = partial_bound(n_bits);
    lemma_partial_bound_small(n_bits);
    let eb = encode_num(b as nat);
    let e0 = encode_num(0);
    lemma_small_num(b as nat);
    lemma_small_num(0);
    let q = t.push(z);
    let dec = decode_num(m);
    let a = encode_num(abs_nat(dec.unwrap()));
    let is_zero = m == e0;
    let fixed = minimal_fixed_byte(m);
    let i1 = Instr::Op(Opcode::FromAltStack);
    let i2 = Instr::Op(Opcode::Dup);
    let i3 = Instr::Op(Opcode::Abs);
    let i4 = Instr::Op(Opcode::EqualVerify);
    let i5 = Instr::Push(eb);
    let i6 = Instr::Op(Opcode::LessThan);
    let i7 = Instr::Op(Opcode::Verify);
    let i8 = Instr::Push(e0);
    let i9 = Instr::Op(Opcode::Equal);
    let i10 = Instr::Op(Opcode::If);
    let i11 = Instr::Op(Opcode::Drop);
    let i12 = Instr::Push(zeros(1));
    let i13 = Instr::Op(Opcode::EndIf);
    let i14 = Instr::Op(Opcode::Cat);
    let m0 = mk(q, alt.push(m));
    let m1 = mk(q.push(m), alt);
    let m2 = mk(q.push(m).push(m), alt);
    let m3 = mk(q.push(m).push(m).push(m), alt);
    let m4 = mk(q.push(m).push(m).push(a), alt);
    let m5 = mk(q.push(m).push(m).push(eb), alt);
    let lt = dec is Some && dec.unwrap() < b as int;
    let m6 = mk(q.push(m).push(bool_item(lt)), alt);
    let m7 = mk(q.push(m).push(m).push(e0), alt);
    let m8 = mk(q.push(m).push(bool_item(is_zero)), alt);
    let m9 = Machine { main: q.push(m), alt, branches: seq![is_zero] };
    let m10 = if is_zero {
        Machine { main: q, alt, branches: seq![is_zero] }
    } else {
        m9
    };
    let m11 = Machine { main: q.push(fixed), alt, branches: seq![is_zero] };
    let m12 = mk(q.push(fixed), alt);
    let m13 = mk(t.push(z + fixed), alt);
    lemma_no_branch(m0);
    lemma_no_branch(m1);
    lemma_no_branch(m2);
    lemma_no_branch(m3);
    lemma_no_branch(m4);
    lemma_no_branch(m5);
    lemma_no_branch(m6);
    lemma_no_branch(m7);
    lemma_no_branch(m8);
    lemma_one_branch(m9, is_zero);
    lemma_one_branch(m10, is_zero);
    lemma_no_branch(m12);
    assert(alt.push(m).drop_last() =~= alt);
    assert(step(h, m0, i1) == Some(m1));
    assert(step(h, m1, i2) == Some(m2));
    assert(step(h, m2, i2) == Some(m3));
    assert(q.push(m).push(m).push(m).drop_last() =~= q.push(m).push(m));
    if dec is Some {
        assert(step(h, m3, i3) == Some(m4));
        let s4 = m4.main;
        assert(s4.subrange(0, s4.len() - 2) =~= q.push(m));
        if m == a {
            assert(step(h, m4, i4) == Some(m1));
        } else {
            assert(step(h, m4, i4) is None);
        }
    } else {
        assert(step(h, m3, i3) is None);
    }
    assert(step(h, m2, i5) == Some(m5));
    let s5 = m5.main;
    assert(s5.subrange(0, s5.len() - 2) =~= q.push(m));
    if dec is Some {
        assert(step(h, m5, i6) == Some(m6));
    }
    assert(bool_item(true)[0] != 0);
    assert(truthy(bool_item(true)));
    assert(!truthy(bool_item(false)));
    assert(q.push(m).push(bool_item(lt)).drop_last() =~= q.push(m));
    if lt {
        assert(step(h, m6, i7) == Some(m1));
    } else {
        assert(step(h, m6, i7) is None);
    }
    assert(step(h, m2, i8) == Some(m7));
    let s7 = m7.main;
    assert(s7.subrange(0, s7.len() - 2) =~= q.push(m));
    assert(step(h, m7, i9) == Some(m8));
    assert(q.push(m).push(bool_item(is_zero)).drop_last() =~= q.push(m));
    assert(step(h, m8, i10) == Some(m9));
    assert(q.push(m).drop_last() =~= q);
    assert(step(h, m9, i11) == Some(m10));
    assert(step(h, m10, i12) == Some(m11));
    assert(seq![is_zero].drop_last() =~= Seq::<bool>::empty());
    assert(step(h, m11, i13) == Some(m12));
    let s12 = m12.main;
    assert(s12.subrange(0, s12.len() - 2).push(s12[s12.len() - 2] + s12[s12.len() - 1])
        =~= m13.main);
    assert(step(h, m12, i14) == Some(m13));
    let e = Seq::<Instr>::empty();
    let p1 = e.push(i1);
    let p2 = p1.push(i2);
    let p3 = p2.push(i2);
    let p4 = p3.push(i3);
    let p5 = p4.push(i4);
    let p6 = p5.push(i2);
    let p7 = p6.push(i5);
    let p8 = p7.push(i6);
    let p9 = p8.push(i7);
    let p10 = p9.push(i2);
    let p11 = p10.push(i8);
    let p12 = p11.push(i9);
    let p13 = p12.push(i10);
    let p14 = p13.push(i11);
    let p15 = p14.push(i12);
    let p16 = p15.push(i13);
    let p17 = p16.push(i14);
    lemma_run_push(h, e, i1, m0);
    lemma_run_push(h, p1, i2, m0);
    lemma_run_push(h, p2, i2, m0);
    lemma_run_push(h, p3, i3, m0);
    lemma_run_push(h, p4, i4, m0);
    lemma_run_push(h, p5, i2, m0);
    lemma_run_push(h, p6, i5, m0);
    lemma_run_push(h, p7, i6, m0);
    lemma_run_push(h, p8, i7, m0);
    lemma_run_push(h, p9, i2, m0);
    lemma_run_push(h, p10, i8, m0);
    lemma_run_push(h, p11, i9, m0);
    lemma_run_push(h, p12, i10, m0);
    lemma_run_push(h, p13, i11, m0);
    lemma_run_push(h, p14, i12, m0);
    lemma_run_push(h, p15, i13, m0);
    lemma_run_push(h, p16, i14, m0);
    assert(partial_byte_program(n_bits) =~= p17);
}

/// The zero prefix followed by the byte of the partial-byte item, when there
/// is one.
pub open spec fn expected_prefix(m: Seq<u8>, n_bits: nat) -> Seq<u8> {
    if n_bits % 8 != 0 {
        zeros(n_bits / 8) + fixed_byte(m)
    } else {
        zeros(n_bits / 8)
    }
}

/// The witness items above the channel: nonce, suffix and, when
/// `n_bits % 8 != 0`, the partial-byte item.
pub open spec fn witness_stack(nonce: Seq<u8>, suffix: Seq<u8>, m: Seq<u8>, n_bits: nat) -> Seq<
    Seq<u8>,
> {
    if n_bits % 8 != 0 {
        seq![nonce, suffix, m]
    } else {
        seq![nonce, suffix]
    }
}

/// What `verify_pow` accepts: an 8-byte nonce, a suffix of the right length,
/// a partial-byte item that passes its check, and a zero prefix, partial byte
/// and suffix that make up `h(channel || nonce)`.
pub open spec fn pow_accepts(
    h: spec_fn(Seq<u8>) -> Seq<u8>,
    channel: Seq<u8>,
    nonce: Seq<u8>,
    suffix: Seq<u8>,
    m: Seq<u8>,
    n_bits: nat,
) -> bool {
    &&& nonce.len() == 8
    &&& suffix.len() == suffix_len(n_bits)
    &&& n_bits % 8 != 0 ==> partial_ok(m, n_bits)
    &&& expected_prefix(m, n_bits) + suffix == h(channel + nonce)
}

proof fn lemma_nonce_len(n: nat, k: nat)
    ensures
        le_fixed(n, k).len() == k,
    decreases k,
{
    if k > 0 {
        lemma_nonce_len(n / 256, (k - 1) as nat);
    }
}

/// Running `verify_pow` on a channel and witness items succeeds exactly when
/// it accepts them, and then leaves `h(channel || nonce)` in their place.
pub proof fn lemma_verify_pow_run(
    h: spec_fn(Seq<u8>) -> Seq<u8>,
    pre: Seq<Seq<u8>>,
    c: Seq<u8>,
    nb: Seq<u8>,
    suffix: Seq<u8>,
    m: Seq<u8>,
    n_bits: nat,
)
    requires
        n_bits <= 256,
    ensures
        run(
            h,
            verify_pow_program(n_bits),
            mk(pre.push(c) + witness_stack(nb, suffix, m, n_bits), Seq::empty()),
        ) == if pow_accepts(h, c, nb, suffix, m, n_bits) {
            Some(mk(pre.push(h(c + nb)), Seq::empty()))
        } else {
            None
        },
{
    let d = h(c + nb);
    let r = n_bits % 8 != 0;
    let e = Seq::<Seq<u8>>::empty();
    let stk = pre + seq![c, nb, suffix];
    let mn = normalize_zero(m);
    let alt0 = if r { e.push(mn) } else { e };
    let m_in = mk(pre.push(c) + witness_stack(nb, suffix, m, n_bits), e);
    let m_a = mk(stk, alt0);
    let pa = if r {
        normalize_zero_program() + seq![Instr::Op(Opcode::ToAltStack)]
    } else {
        Seq::empty()
    };
    if r {
        assert(m_in.main =~= stk.push(m));
        lemma_normalize_zero(h, stk, e, m);
        let m_n = mk(stk.push(mn), e);
        lemma_run_one(h, Instr::Op(Opcode::ToAltStack), m_n);
        lemma_no_branch(m_n);
        lemma_run_concat(h, normalize_zero_program(), seq![Instr::Op(Opcode::ToAltStack)], m_in);
        assert(stk.push(mn).drop_last() =~= stk);
        assert(e.push(mn) =~= alt0);
    } else {
        assert(m_in.main =~= stk);
    }
    assert(run(h, pa, m_in) == Some(m_a));
    lemma_check_nonce(h, pre, c, nb, suffix, alt0);
    lemma_check_suffix(h, stk, alt0, n_bits);
    lemma_new_channel(h, pre, c, nb, suffix, alt0);
    let t = pre + seq![d, suffix];
    let z = zeros(n_bits / 8);
    let m_d = mk(t, alt0);
    lemma_run_one(h, Instr::Push(z), m_d);
    lemma_no_branch(m_d);
    let m_e = mk(t.push(z), alt0);
    let pf = if r { partial_byte_program(n_bits) } else { Seq::empty() };
    let pfx = expected_prefix(m, n_bits);
    let m_f = mk(t.push(pfx), e);
    if r {
        lemma_partial_byte(h, t, z, e, mn, n_bits);
    } else {
        assert(run(h, pf, m_e) == Some(m_f));
    }
    assert(t.push(pfx) =~= pre + seq![d, suffix, pfx]);
    lemma_compare(h, pre, d, suffix, pfx, e);
    let p1 = pa + check_nonce_program();
    let p2 = p1 + check_suffix_program(n_bits);
    let p3 = p2 + new_channel_program();
    let p4 = p3 + seq![Instr::Push(z)];
    let p5 = p4 + pf;
    lemma_run_concat(h, pa, check_nonce_program(), m_in);
    lemma_run_concat(h, p1, check_suffix_program(n_bits), m_in);
    lemma_run_concat(h, p2, new_channel_program(), m_in);
    lemma_run_concat(h, p3, seq![Instr::Push(z)], m_in);
    lemma_run_concat(h, p4, pf, m_in);
    lemma_run_concat(h, p5, compare_program(), m_in);
    assert(verify_pow_program(n_bits) == p5 + compare_program());
}

/// Soundness of `verify_pow`: whenever it succeeds on a channel and witness
/// items, the nonce is 8 bytes, the stack holds `h(channel || nonce)` in
/// their place, and that hash starts with at least `n_bits` zero bits (for
/// every 32-byte machine hash).
pub proof fn lemma_verify_pow_sound(
    h: spec_fn(Seq<u8>) -> Seq<u8>,
    pre: Seq<Seq<u8>>,
    channel: Seq<u8>,
    nonce: Seq<u8>,
    suffix: Seq<u8>,
    m: Seq<u8>,
    n_bits: nat,
)
    requires
        n_bits <= 256,
        h(channel + nonce).len() == 32,
        run(
            h,
            verify_pow_program(n_bits),
            mk(pre.push(channel) + witness_stack(nonce, suffix, m, n_bits), Seq::empty()),
        ) is Some,
    ensures
        run(
            h,
            verify_pow_program(n_bits),
            mk(pre.push(channel) + witness_stack(nonce, suffix, m, n_bits), Seq::empty()),
        ) == Some(mk(pre.push(h(channel + nonce)), Seq::empty())),
        nonce.len() == 8,
        meets_difficulty(h(channel + nonce), n_bits),
{
    lemma_verify_pow_run(h, pre, channel, nonce, suffix, m, n_bits);
    let d = h(channel + nonce);
    let q = n_bits / 8;
    let pfx = expected_prefix(m, n_bits);
    assert(pfx + suffix == d);
    assert forall|i: int| 0 <= i < q implies #[trigger] d[i] == 0 by {
        assert(d[i] == (pfx + suffix)[i]);
        assert(pfx[i] == zeros(q)[i]);
    }
    if n_bits % 8 != 0 {
        lemma_partial_bound_small(n_bits);
        let mn = normalize_zero(m);
        let x = decode_num(mn).unwrap();
        // the lengths add up to 32, so the partial byte is one byte
        assert(fixed_byte(m).len() == 1);
        let v = d[q as int];
        assert(v == (pfx + suffix)[q as int]);
        assert(v == fixed_byte(m)[0]);
        let k = (7 - n_bits % 8) as u8;
        assert(((8 - n_bits % 8) as u8) == k + 1);
        if mn == encode_num(0) {
            assert(v == 0);
        } else {
            assert(mn.len() == 1);
            let w = abs_nat(x);
            lemma_small_num(0);
            lemma_encode_injective_len_one(w, mn);
            assert(decode_num(mn) == Some(mn[0] as int));
            assert(v < partial_bound(n_bits));
        }
        assert(v < (1u8 << k));
        assert(v >> (k + 1) == 0) by (bit_vector)
            requires
                v < (1u8 << k),
                k < 7,
        ;
    }
}

/// A one-byte encoding of a number is a byte below `0x80`.
proof fn lemma_encode_injective_len_one(w: nat, m: Seq<u8>)
    requires
        m == encode_num(w),
        m.len() == 1,
    ensures
        m[0] < 0x80,
        decode_num(m) == Some(m[0] as int),
{
    let mag = le_magnitude(w);
    if mag.len() > 0 && mag.last() >= 0x80 {
        assert(mag.len() == 0);
    }
    assert(m.drop_first() =~= Seq::<u8>::empty());
    assert(le_value(m) == m[0] as nat + 256 * le_value(m.drop_first()));
}

proof fn lemma_witness_pushes(
    h: spec_fn(Seq<u8>) -> Seq<u8>,
    base: Seq<Seq<u8>>,
    c: Seq<u8>,
    nonce: u64,
    suffix: Seq<u8>,
    partial: u8,
    n_bits: nat,
)
    ensures
        run(
            h,
            seq![Instr::Push(c)] + pow_witness_program(nonce, suffix, partial, n_bits),
            start(base),
        ) == Some(mk(base.push(c) + witness_stack(nonce_bytes(nonce), suffix, encode_num(partial as nat), n_bits), Seq::empty())),
{
    let e = Seq::<Seq<u8>>::empty();
    let nb = nonce_bytes(nonce);
    let msb = encode_num(partial as nat);
    let i1 = Instr::Push(c);
    let i2 = Instr::Push(nb);
    let i3 = Instr::Push(suffix);
    let i4 = Instr::Push(msb);
    let m0 = start(base);
    let m1 = mk(base.push(c), e);
    let m2 = mk(base.push(c).push(nb), e);
    let m3 = mk(base.push(c).push(nb).push(suffix), e);
    let m4 = mk(base.push(c).push(nb).push(suffix).push(msb), e);
    lemma_no_branch(m0);
    lemma_no_branch(m1);
    lemma_no_branch(m2);
    lemma_no_branch(m3);
    let pe = Seq::<Instr>::empty();
    lemma_run_push(h, pe, i1, m0);
    lemma_run_push(h, pe.push(i1), i2, m0);
    lemma_run_push(h, pe.push(i1).push(i2), i3, m0);
    lemma_run_push(h, pe.push(i1).push(i2).push(i3), i4, m0);
    if n_bits % 8 != 0 {
        assert(seq![i1] + pow_witness_program(nonce, suffix, partial, n_bits) =~= pe.push(i1).push(
            i2,
        ).push(i3).push(i4));
        assert(m4.main =~= base.push(c) + witness_stack(nonce_bytes(nonce), suffix, encode_num(partial as nat), n_bits));
    } else {
        assert(seq![i1] + pow_witness_program(nonce, suffix, partial, n_bits) =~= pe.push(i1).push(
            i2,
        ).push(i3));
        assert(m3.main =~= base.push(c) + witness_stack(nonce_bytes(nonce), suffix, encode_num(partial as nat), n_bits));
    }
}

/// A digest with the zero bits that `verify_pow` checks has its partial byte
/// under the bound, and the zero prefix and partial byte followed by the
/// suffix make up the digest.
proof fn lemma_digest_split(d: Seq<u8>, n_bits: nat)
    requires
        n_bits <= 256,
        d.len() == 32,
        meets_difficulty(d, checked_zero_bits(n_bits)),
    ensures
        n_bits % 8 != 0 ==> partial_ok(encode_num(d[(n_bits / 8) as int] as nat), n_bits),
        expected_prefix(encode_num(d[(n_bits / 8) as int] as nat), n_bits) + d.subrange(
            ((n_bits + 7) / 8) as int,
            32,
        ) == d,
{
    let q = n_bits / 8;
    let r = n_bits % 8;
    let cz = checked_zero_bits(n_bits);
    assert forall|i: int| 0 <= i < q implies d[i] == 0 by {
        assert(i < cz / 8);
    }
    if r != 0 {
        let v = d[q as int];
        let k = (7 - r) as u8;
        if r == 7 {
            assert(cz / 8 == q + 1);
            assert(d[q as int] == 0);
            assert(k == 0);
            assert(v < (1u8 << k)) by (bit_vector)
                requires
                    v == 0,
                    k == 0,
            ;
        } else {
            assert(cz % 8 == r + 1);
            assert(cz / 8 == q);
            assert(((8 - cz % 8) as u8) == k);
            assert(v >> k == 0);
            assert(v < (1u8 << k)) by (bit_vector)
                requires
                    v >> k == 0,
                    k < 7,
            ;
        }
        lemma_partial_bound_small(n_bits);
        lemma_small_num(v as nat);
        lemma_small_num(0);
        assert(abs_nat(v as int) == v as nat);
        assert(fixed_byte(encode_num(v as nat)) =~= seq![v]);
        assert(expected_prefix(encode_num(v as nat), n_bits) + d.subrange((q + 1) as int, 32) =~= d);
    } else {
        assert(expected_prefix(encode_num(0), n_bits) + d.subrange(q as int, 32) =~= d);
    }
}

/// Proof-of-work round trip: the witness that `push_pow_hint` computes for a
/// channel and a nonce, checked by `verify_pow`, leaves
/// `hash(channel || nonce)` on the stack, whenever that hash is 32 bytes long
/// and starts with the zero bits that `verify_pow` checks.
pub proof fn lemma_pow_round_trip(
    h: spec_fn(Seq<u8>) -> Seq<u8>,
    base: Seq<Seq<u8>>,
    channel: Seq<u8>,
    nonce: u64,
    n_bits: nat,
)
    requires
        n_bits <= 256,
        h(channel + nonce_bytes(nonce)).len() == 32,
        meets_difficulty(h(channel + nonce_bytes(nonce)), checked_zero_bits(n_bits)),
    ensures
        run(
            h,
            seq![Instr::Push(channel)] + pow_hint_program(h(channel + nonce_bytes(nonce)), nonce, n_bits)
                + verify_pow_program(n_bits),
            start(base),
        ) == Some(start(base.push(h(channel + nonce_bytes(nonce))))),
{
    let d = h(channel + nonce_bytes(nonce));
    let q = (n_bits / 8) as int;
    let suffix = d.subrange(((n_bits + 7) / 8) as int, 32);
    let hint = seq![Instr::Push(channel)] + pow_hint_program(d, nonce, n_bits);
    lemma_digest_split(d, n_bits);
    lemma_witness_pushes(h, base, channel, nonce, suffix, d[q], n_bits);
    lemma_nonce_len(nonce as nat, 8);
    lemma_verify_pow_run(h, base, channel, nonce_bytes(nonce), suffix, encode_num(d[q] as nat), n_bits);
    lemma_run_concat(h, hint, verify_pow_program(n_bits), start(base));
}

/// Proof-of-work soundness on the suffix: replaying the hint with any other
/// suffix of the same length (one bit flipped, say) makes `verify_pow` fail.
pub proof fn lemma_pow_rejects_other_suffix(
    h: spec_fn(Seq<u8>) -> Seq<u8>,
    base: Seq<Seq<u8>>,
    channel: Seq<u8>,
    nonce: u64,
    n_bits: nat,
    suffix: Seq<u8>,
)
    requires
        n_bits <= 256,
        h(channel + nonce_bytes(nonce)).len() == 32,
        suffix.len() == suffix_len(n_bits),
        suffix != h(channel + nonce_bytes(nonce)).subrange(((n_bits + 7) / 8) as int, 32),
    ensures
        run(
            h,
            seq![Instr::Push(channel)] + pow_witness_program(
                nonce,
                suffix,
                h(channel + nonce_bytes(nonce))[(n_bits / 8) as int],
                n_bits,
            ) + verify_pow_program(n_bits),
            start(base),
        ) is None,
{
    let d = h(channel + nonce_bytes(nonce));
    let q = (n_bits / 8) as int;
    let pfx = expected_prefix(encode_num(d[q] as nat), n_bits);
    let hint = seq![Instr::Push(channel)] + pow_witness_program(nonce, suffix, d[q], n_bits);
    lemma_witness_pushes(h, base, channel, nonce, suffix, d[q], n_bits);
    lemma_nonce_len(nonce as nat, 8);
    lemma_verify_pow_run(h, base, channel, nonce_bytes(nonce), suffix, encode_num(d[q] as nat), n_bits);
    lemma_run_concat(h, hint, verify_pow_program(n_bits), start(base));
    if pfx + suffix == d {
        assert(pfx.len() == (n_bits + 7) / 8);
        assert(d.subrange(pfx.len() as int, 32) =~= suffix);
    }
}

/// With no difficulty, `verify_pow` succeeds exactly on an 8-byte nonce and a
/// suffix that is the whole of `h(channel || nonce)`, which it leaves.
pub proof fn lemma_verify_pow_zero_bits(
    h: spec_fn(Seq<u8>) -> Seq<u8>,
    pre: Seq<Seq<u8>>,
    channel: Seq<u8>,
    nonce: Seq<u8>,
    suffix: Seq<u8>,
)
    requires
        h(channel + nonce).len() == 32,
    ensures
        run(
            h,
            verify_pow_program(0),
            mk(pre.push(channel) + seq![nonce, suffix], Seq::empty()),
        ) == if nonce.len() == 8 && suffix == h(channel + nonce) {
            Some(mk(pre.push(h(channel + nonce)), Seq::empty()))
        } else {
            None
        },
{
    lemma_verify_pow_run(h, pre, channel, nonce, suffix, Seq::empty(), 0);
    assert(witness_stack(nonce, suffix, Seq::empty(), 0) == seq![nonce, suffix]);
    assert(expected_prefix(Seq::empty(), 0) + suffix =~= suffix);
}

/// Difficulty boundaries: when `n_bits` is a multiple of 8 the witness has
/// no partial byte and `verify_pow` neither moves nor checks one; for
/// `n_bits = 0` the zero prefix is empty and the suffix is the whole 32-byte
/// digest.
pub proof fn lemma_pow_boundaries(digest: Seq<u8>, nonce: u64, n_bits: nat)
    requires
        digest.len() == 32,
    ensures
        n_bits % 8 == 0 ==> pow_hint_program(digest, nonce, n_bits) == seq![
            Instr::Push(nonce_bytes(nonce)),
            Instr::Push(digest.subrange((n_bits / 8) as int, 32)),
        ],
        n_bits % 8 == 0 ==> verify_pow_program(n_bits) == check_nonce_program()
            + check_suffix_program(n_bits) + new_channel_program() + seq![
            Instr::Push(zeros(n_bits / 8)),
        ] + compare_program(),
        n_bits == 0 ==> zeros(n_bits / 8).len() == 0 && suffix_len(n_bits) == 32
            && digest.subrange(((n_bits + 7) / 8) as int, 32) == digest,
{
    if n_bits % 8 == 0 {
        assert((n_bits + 7) / 8 == n_bits / 8);
        assert(pow_hint_program(digest, nonce, n_bits) =~= seq![
            Instr::Push(nonce_bytes(nonce)),
            Instr::Push(digest.subrange((n_bits / 8) as int, 32)),
        ]);
        assert(Seq::<Instr>::empty() + check_nonce_program() =~= check_nonce_program());
        let body = check_nonce_program() + check_suffix_program(n_bits) + new_channel_program()
            + seq![Instr::Push(zeros(n_bits / 8))];
        assert(body + Seq::<Instr>::empty() =~= body);
    }
    if n_bits == 0 {
        assert(digest.subrange(0, 32) =~= digest);
    }
}

} // verus!
