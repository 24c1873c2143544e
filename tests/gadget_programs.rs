use stark_script::channel::{ChannelGadget, HashDigest};
use stark_script::commitment::{Commitment, CommitmentGadget};
use stark_script::pcs::CommitmentSchemeVerifierGadget;
use stark_script::pipeline::Verifier;
use stark_script::pow::{has_leading_zeros, hash_with_nonce, nonce_to_bytes, PowGadget};
use stark_script::script::{Instruction, Opcode, Program};

fn digest_of(bytes: Vec<u8>) -> HashDigest {
    HashDigest::from_bytes(bytes).unwrap()
}

fn hex(s: &str) -> Vec<u8> {
    (0..s.len())
        .step_by(2)
        .map(|i| u8::from_str_radix(&s[i..i + 2], 16).unwrap())
        .collect()
}

#[test]
fn commitment_of_one_leaf_is_its_sha256() {
    let c = Commitment::commit_m31(&b"abc".to_vec());
    assert_eq!(
        c.as_bytes(),
        &hex("ba7816bf8f01cfea414140de5dae2223b00361a396177a9cb410ff61f20015ad")
    );
}

#[test]
fn commitment_of_two_leaves_chains_the_hashes() {
    let first = vec![1u8, 2, 3];
    let second = vec![4u8, 5];
    let inner = Commitment::commit_m31(&second);
    let mut data = first.clone();
    data.extend_from_slice(inner.as_bytes());
    let expected = Commitment::commit_m31(&data);
    let c = Commitment::commit_cm31(&vec![first, second]);
    assert_eq!(c.as_bytes(), expected.as_bytes());
}

#[test]
fn swapping_leaves_changes_the_commitment() {
    let a = vec![7u8, 0, 0, 0];
    let b = vec![9u8, 0, 0, 0];
    let ab = Commitment::commit_cm31(&vec![a.clone(), b.clone()]);
    let ba = Commitment::commit_cm31(&vec![b, a]);
    assert_ne!(ab.as_bytes(), ba.as_bytes());
}

#[test]
fn commitment_gadgets_have_the_hash_chain_shape() {
    assert_eq!(CommitmentGadget::commit_m31().instructions(), &vec![Instruction::Op(Opcode::Sha256)]);
    assert_eq!(
        CommitmentGadget::commit_cm31().instructions(),
        &vec![
            Instruction::Op(Opcode::Sha256),
            Instruction::Op(Opcode::Cat),
            Instruction::Op(Opcode::Sha256)
        ]
    );
    assert_eq!(CommitmentGadget::commit_qm31().len(), 7);
}

#[test]
fn gadgets_are_deterministic() {
    for n_bits in [0usize, 1, 7, 8, 12, 23, 256] {
        assert_eq!(PowGadget::verify_pow(n_bits), PowGadget::verify_pow(n_bits));
        assert_eq!(
            PowGadget::push_pow_hint(vec![1u8; 32], 42, n_bits),
            PowGadget::push_pow_hint(vec![1u8; 32], 42, n_bits)
        );
    }
    assert_eq!(CommitmentGadget::commit_qm31(), CommitmentGadget::commit_qm31());
    assert_eq!(
        ChannelGadget::mix_digest(digest_of(vec![5u8; 32])),
        ChannelGadget::mix_digest(digest_of(vec![5u8; 32]))
    );
}

#[test]
fn hint_without_difficulty_has_the_whole_digest_as_suffix() {
    let channel = vec![2u8; 32];
    let digest = hash_with_nonce(&channel, 17);
    let hint = PowGadget::push_pow_hint(channel, 17, 0);
    assert_eq!(
        hint.instructions(),
        &vec![
            Instruction::Push(17u64.to_le_bytes().to_vec()),
            Instruction::Push(digest)
        ]
    );
}

#[test]
fn hint_for_whole_bytes_has_no_partial_byte() {
    let channel = vec![2u8; 32];
    let digest = hash_with_nonce(&channel, 5);
    let hint = PowGadget::push_pow_hint(channel, 5, 16);
    assert_eq!(hint.len(), 2);
    assert_eq!(hint.instructions()[1], Instruction::Push(digest[2..].to_vec()));
}

#[test]
fn hint_for_partial_bytes_pushes_the_byte_as_a_number() {
    let channel = vec![2u8; 32];
    let digest = hash_with_nonce(&channel, 5);
    let hint = PowGadget::push_pow_hint(channel, 5, 12);
    assert_eq!(hint.len(), 3);
    assert_eq!(hint.instructions()[1], Instruction::Push(digest[2..].to_vec()));
    let b = digest[1];
    let expected = if b == 0 {
        vec![]
    } else if b < 0x80 {
        vec![b]
    } else {
        vec![b, 0]
    };
    assert_eq!(hint.instructions()[2], Instruction::Push(expected));
}

#[test]
fn verify_pow_moves_the_partial_byte_only_when_needed() {
    let aligned = PowGadget::verify_pow(8);
    let partial = PowGadget::verify_pow(12);
    assert!(!aligned.instructions().contains(&Instruction::Op(Opcode::ToAltStack)));
    assert_eq!(partial.instructions()[7], Instruction::Op(Opcode::ToAltStack));
    assert_eq!(partial.len(), aligned.len() + 25);
    assert!(partial.instructions().contains(&Instruction::Op(Opcode::Abs)));
    // the suffix length for 12 bits is 32 - 2 = 30
    assert!(partial.instructions().contains(&Instruction::Push(vec![30])));
    // the partial byte must stay below 1 << (7 - 4) = 8
    assert!(partial.instructions().contains(&Instruction::Push(vec![8])));
}

#[test]
fn nonce_bytes_are_little_endian() {
    assert_eq!(nonce_to_bytes(0x0102030405060708), vec![8, 7, 6, 5, 4, 3, 2, 1]);
    assert_eq!(nonce_to_bytes(0), vec![0; 8]);
    assert_eq!(nonce_to_bytes(u64::MAX), vec![0xff; 8]);
}

#[test]
fn hash_with_nonce_hashes_channel_then_nonce() {
    let channel = vec![9u8; 32];
    let mut data = channel.clone();
    data.extend_from_slice(&3u64.to_le_bytes());
    let expected = Commitment::commit_m31(&data);
    assert_eq!(&hash_with_nonce(&channel, 3), expected.as_bytes());
}

#[test]
fn leading_zero_bits_are_counted_exactly() {
    let mut d = vec![0u8; 32];
    d[1] = 0x10;
    assert!(has_leading_zeros(&d, 0));
    assert!(has_leading_zeros(&d, 8));
    assert!(has_leading_zeros(&d, 11));
    assert!(!has_leading_zeros(&d, 12));
    assert!(!has_leading_zeros(&d, 257));
    assert!(has_leading_zeros(&vec![0u8; 32], 256));
}

#[test]
fn digests_must_be_32_bytes() {
    assert!(HashDigest::from_bytes(vec![0u8; 31]).is_none());
    assert!(HashDigest::from_bytes(vec![0u8; 33]).is_none());
    assert_eq!(HashDigest::from_bytes(vec![4u8; 32]).unwrap().as_bytes(), &vec![4u8; 32]);
}

#[test]
fn pcs_commit_absorbs_the_commitment() {
    let d = vec![6u8; 32];
    let p = CommitmentSchemeVerifierGadget::commit(digest_of(d.clone()), vec![3, 4, 5]);
    assert_eq!(
        p.instructions(),
        &vec![
            Instruction::Push(d),
            Instruction::Op(Opcode::Cat),
            Instruction::Op(Opcode::Sha256)
        ]
    );
}

#[test]
fn verifier_absorbs_each_commitment_after_the_channel() {
    let seed = vec![1u8; 32];
    let channel = ChannelGadget::create_channel(digest_of(seed.clone()));
    let commitments = vec![digest_of(vec![2u8; 32]), digest_of(vec![3u8; 32])];
    let p = Verifier::verify(&commitments, &vec![5, 5], channel);
    assert_eq!(p.len(), 7);
    assert_eq!(p.instructions()[0], Instruction::Push(seed));
    assert_eq!(p.instructions()[1], Instruction::Push(vec![2u8; 32]));
    assert_eq!(p.instructions()[4], Instruction::Push(vec![3u8; 32]));
    assert_eq!(p.instructions()[6], Instruction::Op(Opcode::Sha256));
}

#[test]
fn script_bytes_use_the_machine_encoding() {
    assert_eq!(CommitmentGadget::commit_cm31().to_script_bytes(), Some(vec![0xa8, 0x7e, 0xa8]));
    let mut p = Program::new();
    p.push_bytes(vec![]);
    p.push_bytes(vec![0xab; 32]);
    p.push_bytes(vec![0xcd; 100]);
    p.push_bytes(vec![0xef; 300]);
    p.op(Opcode::EqualVerify);
    let mut expected = vec![0x00, 0x20];
    expected.extend_from_slice(&[0xab; 32]);
    expected.extend_from_slice(&[0x4c, 100]);
    expected.extend_from_slice(&[0xcd; 100]);
    expected.extend_from_slice(&[0x4d, 0x2c, 0x01]);
    expected.extend_from_slice(&[0xef; 300]);
    expected.push(0x88);
    assert_eq!(p.to_script_bytes(), Some(expected));
}

#[test]
fn script_bytes_match_the_bitcoin_builder() {
    let p = PowGadget::verify_pow(12);
    let mut builder = bitcoin::script::Builder::new();
    for ins in p.instructions() {
        builder = match ins {
            Instruction::Op(op) => builder.push_opcode(bitcoin::opcodes::Opcode::from(op.byte())),
            Instruction::Push(bytes) if bytes.len() == 1 && (1..=16).contains(&bytes[0]) => {
                builder.push_int(bytes[0] as i64)
            }
            Instruction::Push(bytes) => builder.push_slice(
                bitcoin::script::PushBytesBuf::try_from(bytes.clone()).unwrap(),
            ),
        };
    }
    assert_eq!(p.to_script_bytes(), Some(builder.into_bytes()));
}

#[test]
fn oversized_pushes_have_no_script_bytes() {
    let mut p = Program::new();
    p.push_bytes(vec![0u8; 521]);
    assert_eq!(p.to_script_bytes(), None);
}

#[test]
fn small_numbers_use_their_own_opcodes() {
    let mut p = Program::new();
    p.push_bytes(vec![8]);
    p.push_bytes(vec![16]);
    p.push_bytes(vec![17]);
    p.push_bytes(vec![0x81]);
    p.push_bytes(vec![]);
    assert_eq!(p.to_script_bytes(), Some(vec![0x58, 0x60, 0x01, 0x11, 0x4f, 0x00]));
}
