use rand::{Rng, RngCore, SeedableRng};
use rand_chacha::ChaCha20Rng;
use stark_script::channel::{Channel, ChannelGadget, HashDigest};
use stark_script::commitment::{Commitment, CommitmentGadget};
use stark_script::pow::{grind_find_nonce, hash_with_nonce, PowGadget};
use stark_script::script::{Instruction, Opcode, Program};

fn sha256(data: &[u8]) -> Vec<u8> {
    let digest = <bitcoin::hashes::sha256::Hash as bitcoin::hashes::Hash>::hash(data);
    <bitcoin::hashes::sha256::Hash as bitcoin::hashes::Hash>::to_byte_array(digest).to_vec()
}

fn decode_num(b: &[u8]) -> Option<i64> {
    if b.len() > 4 {
        return None;
    }
    if b.is_empty() {
        return Some(0);
    }
    let mut v: i64 = 0;
    for (i, byte) in b.iter().enumerate() {
        let byte = if i == b.len() - 1 { byte & 0x7f } else { *byte };
        v |= (byte as i64) << (8 * i);
    }
    if b[b.len() - 1] & 0x80 != 0 {
        v = -v;
    }
    Some(v)
}

fn encode_num(n: usize) -> Vec<u8> {
    let mut r = Vec::new();
    let mut x = n;
    while x > 0 {
        r.push((x % 256) as u8);
        x /= 256;
    }
    if let Some(last) = r.last() {
        if last & 0x80 != 0 {
            r.push(0);
        }
    }
    r
}

fn truthy(b: &[u8]) -> bool {
    b.iter()
        .enumerate()
        .any(|(i, &x)| x != 0 && !(i == b.len() - 1 && x == 0x80))
}

fn bool_item(b: bool) -> Vec<u8> {
    if b {
        vec![1]
    } else {
        vec![]
    }
}

/// Runs a program on the machine; `None` when an instruction fails.
fn run(program: &Program, mut main: Vec<Vec<u8>>) -> Option<Vec<Vec<u8>>> {
    let mut alt: Vec<Vec<u8>> = Vec::new();
    let mut branches: Vec<bool> = Vec::new();
    for ins in program.instructions() {
        let executing = branches.iter().all(|b| *b);
        match ins {
            Instruction::Push(bytes) => {
                if executing {
                    main.push(bytes.clone());
                }
            }
            Instruction::Op(Opcode::If) => {
                if executing {
                    let top = main.pop()?;
                    if top != bool_item(true) && top != bool_item(false) {
                        return None;
                    }
                    branches.push(top == bool_item(true));
                } else {
                    branches.push(false);
                }
            }
            Instruction::Op(Opcode::Else) => {
                let last = branches.pop()?;
                branches.push(!last);
            }
            Instruction::Op(Opcode::EndIf) => {
                branches.pop()?;
            }
            Instruction::Op(_) if !executing => {}
            Instruction::Op(op) => {
                let n = main.len();
                match op {
                    Opcode::Sha256 => {
                        let x = main.pop()?;
                        main.push(sha256(&x));
                    }
                    Opcode::Cat => {
                        let b = main.pop()?;
                        let mut a = main.pop()?;
                        a.extend_from_slice(&b);
                        main.push(a);
                    }
                    Opcode::Size => {
                        let len = main.last()?.len();
                        main.push(encode_num(len));
                    }
                    Opcode::Equal => {
                        let b = main.pop()?;
                        let a = main.pop()?;
                        main.push(bool_item(a == b));
                    }
                    Opcode::EqualVerify => {
                        let b = main.pop()?;
                        let a = main.pop()?;
                        if a != b {
                            return None;
                        }
                    }
                    Opcode::Verify => {
                        if !truthy(&main.pop()?) {
                            return None;
                        }
                    }
                    Opcode::LessThan => {
                        let b = decode_num(&main.pop()?)?;
                        let a = decode_num(&main.pop()?)?;
                        main.push(bool_item(a < b));
                    }
                    Opcode::Abs => {
                        let x = decode_num(&main.pop()?)?;
                        main.push(encode_num(x.unsigned_abs() as usize));
                    }
                    Opcode::Pick => {
                        let k = decode_num(&main.pop()?)?;
                        if k < 0 || k as usize >= n - 1 {
                            return None;
                        }
                        let item = main[n - 2 - k as usize].clone();
                        main.push(item);
                    }
                    Opcode::Drop => {
                        main.pop()?;
                    }
                    Opcode::Dup => {
                        let top = main.last()?.clone();
                        main.push(top);
                    }
                    Opcode::Swap => {
                        if n < 2 {
                            return None;
                        }
                        main.swap(n - 1, n - 2);
                    }
                    Opcode::Over => {
                        if n < 2 {
                            return None;
                        }
                        let item = main[n - 2].clone();
                        main.push(item);
                    }
                    Opcode::Rot => {
                        if n < 3 {
                            return None;
                        }
                        let item = main.remove(n - 3);
                        main.push(item);
                    }
                    Opcode::ToAltStack => {
                        let top = main.pop()?;
                        alt.push(top);
                    }
                    Opcode::FromAltStack => {
                        let top = alt.pop()?;
                        main.push(top);
                    }
                    _ => return None,
                }
            }
        }
    }
    if !branches.is_empty() {
        return None;
    }
    Some(main)
}

/// Success as the machine reports it: the program runs to its end and
/// leaves a true item on top.
fn execute_script(program: &Program) -> bool {
    match run(program, Vec::new()) {
        Some(stack) => stack.last().map(|t| truthy(t)).unwrap_or(false),
        None => false,
    }
}

fn push(p: &mut Program, bytes: &[u8]) {
    p.push_bytes(bytes.to_vec());
}

fn then(p: &mut Program, q: &Program) {
    p.append(q.clone());
}

fn m31_leaf(x: u64) -> Vec<u8> {
    ((x % 0x7fff_ffff) as u32).to_le_bytes().to_vec()
}

fn digest_of(bytes: Vec<u8>) -> HashDigest {
    HashDigest::from_bytes(bytes).unwrap()
}

fn n_bits_checked(n_bits: usize) -> u32 {
    if n_bits % 8 == 0 {
        n_bits as u32
    } else {
        n_bits as u32 + 1
    }
}

#[test]
fn test_commit_m31() {
    let mut prng = ChaCha20Rng::seed_from_u64(0);

    let commit_script = CommitmentGadget::commit_m31();
    println!("M31.commit() = {} bytes", commit_script.len());

    for _ in 0..100 {
        let a = m31_leaf(prng.next_u64());
        let b = Commitment::commit_m31(&a);

        let mut script = Program::new();
        push(&mut script, &a);
        then(&mut script, &commit_script);
        push(&mut script, b.as_bytes());
        script.op(Opcode::Equal);
        assert!(execute_script(&script));
    }
}

#[test]
fn test_commit_cm31() {
    let mut prng = ChaCha20Rng::seed_from_u64(0);

    let commit_script = CommitmentGadget::commit_cm31();
    println!("CM31.commit() = {} bytes", commit_script.len());

    for _ in 0..100 {
        let a = vec![m31_leaf(prng.next_u64()), m31_leaf(prng.next_u64())];
        let b = Commitment::commit_cm31(&a);

        let mut script = Program::new();
        for leaf in &a {
            push(&mut script, leaf);
        }
        then(&mut script, &commit_script);
        push(&mut script, b.as_bytes());
        script.op(Opcode::Equal);
        assert!(execute_script(&script));
    }
}

#[test]
fn test_commit_qm31() {
    let mut prng = ChaCha20Rng::seed_from_u64(0);

    let commit_script = CommitmentGadget::commit_qm31();
    println!("QM31.commit() = {} bytes", commit_script.len());

    for _ in 0..100 {
        let a: Vec<Vec<u8>> = (0..4).map(|_| m31_leaf(prng.next_u64())).collect();
        let b = Commitment::commit_qm31(&a);

        let mut script = Program::new();
        for leaf in &a {
            push(&mut script, leaf);
        }
        then(&mut script, &commit_script);
        push(&mut script, b.as_bytes());
        script.op(Opcode::Equal);
        assert!(execute_script(&script));
    }

    // make sure the concatenation opcode does not end the program early
    let mut script = Program::new();
    script.op(Opcode::Cat);
    script.op(Opcode::Return);
    assert!(!execute_script(&script));
}

#[test]
fn test_push_pow_hint() {
    let mut prng = ChaCha20Rng::seed_from_u64(0);

    let mut channel_digest = vec![0u8; 32];
    prng.fill_bytes(&mut channel_digest);

    let nonce: u64 = prng.gen();
    let new_channel = hash_with_nonce(&channel_digest, nonce);

    let mut script = PowGadget::push_pow_hint(channel_digest.clone(), nonce, 0);
    push(&mut script, &new_channel);
    script.op(Opcode::EqualVerify);
    push(&mut script, &nonce.to_le_bytes());
    script.op(Opcode::EqualVerify);
    push(&mut script, &[1]);
    assert!(execute_script(&script));
}

fn pow_script(channel_digest: &[u8], nonce: u64, n_bits: usize) -> Program {
    let mut script = Program::new();
    push(&mut script, channel_digest);
    then(&mut script, &PowGadget::push_pow_hint(channel_digest.to_vec(), nonce, n_bits));
    then(&mut script, &PowGadget::verify_pow(n_bits));
    script
}

#[test]
fn test_pow() {
    let n_bits: usize = 12;

    let mut prng = ChaCha20Rng::seed_from_u64(0);

    let mut channel_digest = [0u8; 32].to_vec();

    for i in 0..32 {
        channel_digest[i] = prng.gen();
    }

    let nonce = grind_find_nonce(&channel_digest, n_bits.try_into().unwrap()).unwrap();

    let mut script = pow_script(&channel_digest, nonce, n_bits);
    push(&mut script, &channel_digest);
    push(&mut script, &nonce.to_le_bytes());
    script.op(Opcode::Cat);
    script.op(Opcode::Sha256);
    script.op(Opcode::EqualVerify);
    push(&mut script, &[1]);
    assert!(execute_script(&script));
}

#[test]
fn pow_round_trip_for_each_difficulty() {
    let mut prng = ChaCha20Rng::seed_from_u64(7);
    let mut channel_digest = vec![0u8; 32];
    prng.fill_bytes(&mut channel_digest);
    for n_bits in [0usize, 1, 7, 8, 12] {
        let nonce = grind_find_nonce(&channel_digest, n_bits_checked(n_bits)).unwrap();
        let script = pow_script(&channel_digest, nonce, n_bits);
        let stack = run(&script, Vec::new()).unwrap();
        assert_eq!(stack, vec![hash_with_nonce(&channel_digest, nonce)]);

        // the same witness with one bit of the suffix flipped
        let mut tampered = Program::new();
        push(&mut tampered, &channel_digest);
        let hint = PowGadget::push_pow_hint(channel_digest.clone(), nonce, n_bits);
        for (i, ins) in hint.instructions().iter().enumerate() {
            match ins {
                Instruction::Push(bytes) if i == 1 => {
                    let mut flipped = bytes.clone();
                    flipped[0] ^= 1;
                    push(&mut tampered, &flipped);
                }
                other => tampered.append(single(other)),
            }
        }
        then(&mut tampered, &PowGadget::verify_pow(n_bits));
        assert_eq!(run(&tampered, Vec::new()), None);
    }
}

fn single(ins: &Instruction) -> Program {
    let mut p = Program::new();
    match ins {
        Instruction::Op(op) => p.op(*op),
        Instruction::Push(bytes) => p.push_bytes(bytes.clone()),
    }
    p
}

#[test]
fn pow_rejects_a_short_nonce() {
    let channel_digest = vec![3u8; 32];
    let nonce = grind_find_nonce(&channel_digest, 8).unwrap();
    let digest = hash_with_nonce(&channel_digest, nonce);
    let mut script = Program::new();
    push(&mut script, &channel_digest);
    push(&mut script, &nonce.to_le_bytes()[..7]);
    push(&mut script, &digest[1..]);
    then(&mut script, &PowGadget::verify_pow(8));
    assert_eq!(run(&script, Vec::new()), None);
}

#[test]
fn pow_rejects_a_partial_byte_over_the_bound() {
    // 12 bits: the partial byte must stay below 8
    let channel_digest = vec![5u8; 32];
    let mut nonce = 0u64;
    loop {
        let d = hash_with_nonce(&channel_digest, nonce);
        if d[0] == 0 && d[1] >= 8 && d[1] < 16 {
            break;
        }
        nonce += 1;
    }
    let script = pow_script(&channel_digest, nonce, 12);
    assert_eq!(run(&script, Vec::new()), None);
}

#[test]
fn mix_digest_matches_the_reference() {
    let mut prng = ChaCha20Rng::seed_from_u64(1);
    for _ in 0..128 {
        let mut c = vec![0u8; 32];
        let mut d = vec![0u8; 32];
        prng.fill_bytes(&mut c);
        prng.fill_bytes(&mut d);
        let mut script = ChannelGadget::create_channel(digest_of(c.clone()));
        then(&mut script, &ChannelGadget::mix_digest(digest_of(d.clone())));
        let stack = run(&script, Vec::new()).unwrap();

        let mut channel = Channel::new(digest_of(c.clone()));
        channel.mix_digest(&digest_of(d.clone()));
        let mut cd = c.clone();
        cd.extend_from_slice(&d);
        assert_eq!(stack, vec![sha256(&cd)]);
        assert_eq!(channel.digest().as_bytes(), &sha256(&cd));
    }
}

fn nonce_with_first_byte(channel_digest: &[u8], first: u8) -> u64 {
    let mut nonce = 0u64;
    while hash_with_nonce(&channel_digest.to_vec(), nonce)[0] != first {
        nonce += 1;
    }
    nonce
}

fn run_with_partial_item(channel_digest: &[u8], nonce: u64, n_bits: usize, item: Vec<u8>) -> Option<Vec<Vec<u8>>> {
    let digest = hash_with_nonce(&channel_digest.to_vec(), nonce);
    let mut script = Program::new();
    push(&mut script, channel_digest);
    push(&mut script, &nonce.to_le_bytes());
    push(&mut script, &digest[(n_bits + 7) / 8..]);
    script.push_bytes(item);
    then(&mut script, &PowGadget::verify_pow(n_bits));
    run(&script, Vec::new())
}

#[test]
fn pow_rejects_a_partial_byte_read_as_negative() {
    // 0x85 reads as -5, below any bound, but the hash has no zero bit
    let channel_digest = vec![8u8; 32];
    let nonce = nonce_with_first_byte(&channel_digest, 0x85);
    assert_eq!(run_with_partial_item(&channel_digest, nonce, 4, vec![0x85]), None);
}

#[test]
fn pow_rejects_negative_zero_as_partial_byte() {
    let channel_digest = vec![8u8; 32];
    let nonce = nonce_with_first_byte(&channel_digest, 0x80);
    assert_eq!(run_with_partial_item(&channel_digest, nonce, 4, vec![0x80]), None);
}

#[test]
fn pow_accepts_a_zero_partial_byte_in_either_form() {
    let channel_digest = vec![8u8; 32];
    let nonce = nonce_with_first_byte(&channel_digest, 0x00);
    let digest = hash_with_nonce(&channel_digest, nonce);
    // the zero byte as the single byte 0x00
    assert_eq!(
        run_with_partial_item(&channel_digest, nonce, 4, vec![0x00]),
        Some(vec![digest.clone()])
    );
    // and as the empty item, the form the hint pushes
    assert_eq!(
        run_with_partial_item(&channel_digest, nonce, 4, vec![]),
        Some(vec![digest])
    );
}

#[test]
fn pow_rejects_a_non_minimal_partial_number() {
    // the byte 5 written with a trailing zero byte
    let channel_digest = vec![8u8; 32];
    let nonce = nonce_with_first_byte(&channel_digest, 0x05);
    assert_eq!(run_with_partial_item(&channel_digest, nonce, 4, vec![0x05, 0x00]), None);
}
