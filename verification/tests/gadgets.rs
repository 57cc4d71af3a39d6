//! Runs the script fragments on a small stack machine and compares what they
//! leave on the stack with the host-side channel.

use bitcoin_circle_stark::channel::{serialize_felt, trim_m31, Sha256Channel};
use bitcoin_circle_stark::field::{CM31, M31, QM31};
use bitcoin_circle_stark::gadget::{serialize_felt_gadget, trim_m31_gadget, Sha256ChannelGadget};
use bitcoin_circle_stark::hint::{generate_hints, DrawHints};
use bitcoin_circle_stark::circle_secure::CirclePointSecureGadget;
use bitcoin_circle_stark::field_gadgets::{CirclePoint, FieldGadgets};
use bitcoin_circle_stark::oods::OODSGadget;
use bitcoin_circle_stark::opcodes::{
    OP_CAT, OP_DUP, OP_EQUAL, OP_EQUALVERIFY, OP_NOT, OP_PUSHBYTES_1, OP_ROLL, OP_SHA256, OP_SWAP,
};
use bitcoin_circle_stark::replay::unpack_multi_m31;
use bitcoin_circle_stark::script::Script;
use rand::{Rng, RngCore, SeedableRng};
use rand_chacha::ChaCha20Rng;

const OP_RETURN: u8 = 0x6a;

struct ExecResult {
    success: bool,
    stack: Vec<Vec<u8>>,
}

fn decode_number(b: &[u8]) -> Option<i64> {
    if b.len() > 4 {
        return None;
    }
    if b.is_empty() {
        return Some(0);
    }
    let last = b[b.len() - 1];
    if last & 0x7f == 0 && (b.len() == 1 || b[b.len() - 2] & 0x80 == 0) {
        return None;
    }
    let mut v: i64 = 0;
    for (i, x) in b.iter().enumerate() {
        v |= (*x as i64) << (8 * i);
    }
    if last & 0x80 != 0 {
        v &= !(0x80i64 << (8 * (b.len() - 1)));
        v = -v;
    }
    Some(v)
}

fn encode_number(v: i64) -> Vec<u8> {
    let mut out = Vec::new();
    if v == 0 {
        return out;
    }
    let negative = v < 0;
    let mut m = v.unsigned_abs();
    while m > 0 {
        out.push((m & 0xff) as u8);
        m >>= 8;
    }
    if out[out.len() - 1] & 0x80 != 0 {
        out.push(if negative { 0x80 } else { 0 });
    } else if negative {
        let k = out.len() - 1;
        out[k] |= 0x80;
    }
    out
}

fn is_minimal_push(op: u8, data: &[u8]) -> bool {
    if data.is_empty() {
        return op == 0x00;
    }
    if data.len() == 1 && (1..=16).contains(&data[0]) {
        return false;
    }
    if data.len() == 1 && data[0] == 0x81 {
        return false;
    }
    if data.len() <= 75 {
        return op as usize == data.len();
    }
    if data.len() <= 255 {
        return op == 0x4c;
    }
    if data.len() <= 65535 {
        return op == 0x4d;
    }
    true
}

fn pop(stack: &mut Vec<Vec<u8>>) -> Option<Vec<u8>> {
    stack.pop()
}

fn pop_number(stack: &mut Vec<Vec<u8>>) -> Option<i64> {
    let top = stack.pop()?;
    decode_number(&top)
}

fn pop_condition(stack: &mut Vec<Vec<u8>>) -> Option<bool> {
    let top = stack.pop()?;
    if top.is_empty() {
        Some(false)
    } else if top == [1u8] {
        Some(true)
    } else {
        None
    }
}

fn step(op: u8, stack: &mut Vec<Vec<u8>>, alt: &mut Vec<Vec<u8>>) -> Option<()> {
    match op {
        0x4f => stack.push(vec![0x81]),
        0x51..=0x60 => stack.push(vec![op - 0x50]),
        0x69 => {
            if !pop_condition(stack)? {
                return None;
            }
        }
        0x6a => return None,
        0x6b => {
            let x = pop(stack)?;
            alt.push(x);
        }
        0x6c => {
            let x = pop(alt)?;
            stack.push(x);
        }
        0x72 => {
            if stack.len() < 4 {
                return None;
            }
            let n = stack.len();
            stack.swap(n - 4, n - 2);
            stack.swap(n - 3, n - 1);
        }
        0x74 => stack.push(encode_number(stack.len() as i64)),
        0x75 => {
            pop(stack)?;
        }
        0x76 => {
            let x = stack.last()?.clone();
            stack.push(x);
        }
        0x7a => {
            let k = pop_number(stack)?;
            if k < 0 || k as usize >= stack.len() {
                return None;
            }
            let x = stack.remove(stack.len() - 1 - k as usize);
            stack.push(x);
        }
        0x7b => {
            if stack.len() < 3 {
                return None;
            }
            let x = stack.remove(stack.len() - 3);
            stack.push(x);
        }
        0x7c => {
            if stack.len() < 2 {
                return None;
            }
            let n = stack.len();
            stack.swap(n - 2, n - 1);
        }
        0x7e => {
            let b = pop(stack)?;
            let mut a = pop(stack)?;
            a.extend_from_slice(&b);
            if a.len() > 520 {
                return None;
            }
            stack.push(a);
        }
        0x82 => {
            let n = stack.last()?.len();
            stack.push(encode_number(n as i64));
        }
        0x87 | 0x88 => {
            let b = pop(stack)?;
            let a = pop(stack)?;
            if op == 0x88 {
                if a != b {
                    return None;
                }
            } else {
                stack.push(if a == b { vec![1] } else { vec![] });
            }
        }
        0x8c => {
            let a = pop_number(stack)?;
            stack.push(encode_number(a - 1));
        }
        0x90 => {
            let a = pop_number(stack)?;
            stack.push(encode_number(a.abs()));
        }
        0x91 => {
            let a = pop_number(stack)?;
            stack.push(if a == 0 { vec![1] } else { vec![] });
        }
        0x94 | 0x9f | 0xa2 => {
            let b = pop_number(stack)?;
            let a = pop_number(stack)?;
            match op {
                0x94 => stack.push(encode_number(a - b)),
                0x9f => stack.push(if a < b { vec![1] } else { vec![] }),
                _ => stack.push(if a >= b { vec![1] } else { vec![] }),
            }
        }
        0xa8 => {
            let a = pop(stack)?;
            let digest = <bitcoin::hashes::sha256::Hash as bitcoin::hashes::Hash>::hash(&a);
            stack.push(<bitcoin::hashes::sha256::Hash as bitcoin::hashes::Hash>::to_byte_array(digest).to_vec());
        }
        _ => return None,
    }
    Some(())
}

fn run(script: &[u8], stack: &mut Vec<Vec<u8>>) -> Option<()> {
    let mut alt: Vec<Vec<u8>> = Vec::new();
    let mut conditions: Vec<bool> = Vec::new();
    let mut pc = 0usize;
    while pc < script.len() {
        let op = script[pc];
        pc += 1;
        let executing = conditions.iter().all(|c| *c);
        if op <= 0x4e {
            let len = match op {
                0x4c => {
                    let n = *script.get(pc)? as usize;
                    pc += 1;
                    n
                }
                0x4d => {
                    let n = *script.get(pc)? as usize | (*script.get(pc + 1)? as usize) << 8;
                    pc += 2;
                    n
                }
                0x4e => {
                    let mut n = 0usize;
                    for i in 0..4 {
                        n |= (*script.get(pc + i)? as usize) << (8 * i);
                    }
                    pc += 4;
                    n
                }
                _ => op as usize,
            };
            let data = script.get(pc..pc + len)?;
            pc += len;
            if executing {
                if !is_minimal_push(op, data) || data.len() > 520 {
                    return None;
                }
                stack.push(data.to_vec());
            }
            continue;
        }
        match op {
            0x63 | 0x64 => {
                let mut value = false;
                if executing {
                    value = pop_condition(stack)?;
                    if op == 0x64 {
                        value = !value;
                    }
                }
                conditions.push(value);
            }
            0x67 => {
                let top = conditions.pop()?;
                conditions.push(!top);
            }
            0x68 => {
                conditions.pop()?;
            }
            _ => {
                if executing {
                    step(op, stack, &mut alt)?;
                }
            }
        }
    }
    if conditions.is_empty() {
        Some(())
    } else {
        None
    }
}

fn execute_script(script: &Script) -> ExecResult {
    let mut stack: Vec<Vec<u8>> = Vec::new();
    let finished = run(script.as_bytes(), &mut stack).is_some();
    let success = finished && stack.len() == 1 && stack[0].iter().any(|b| *b != 0) && stack[0] != [0x80u8];
    ExecResult { success, stack }
}

fn random_hash(prng: &mut ChaCha20Rng) -> [u8; 32] {
    let mut a = [0u8; 32];
    a.iter_mut().for_each(|v| *v = prng.gen());
    a
}

fn reduce_u64(val: u64) -> M31 {
    let p = 0x7fff_ffffu64;
    M31((((((val >> 31) + val + 1) >> 31) + val) & p) as u32)
}

fn random_qm31(prng: &mut ChaCha20Rng) -> QM31 {
    QM31(
        CM31(reduce_u64(prng.next_u64()), reduce_u64(prng.next_u64())),
        CM31(reduce_u64(prng.next_u64()), reduce_u64(prng.next_u64())),
    )
}

fn squeeze_ops(s: &mut Script) {
    s.push_opcode(OP_SHA256);
    s.push_opcode(OP_DUP);
    s.push_opcode(OP_PUSHBYTES_1);
    s.push_opcode(0x00);
    s.push_opcode(OP_CAT);
    s.push_opcode(OP_SHA256);
    s.push_opcode(OP_SWAP);
}

fn qm31_equalverify(s: &mut Script) {
    for i in 0..4u32 {
        s.push_number(4 - i);
        s.push_opcode(OP_ROLL);
        s.push_opcode(OP_EQUALVERIFY);
    }
}

fn report_bitcoin_script_size(category: &str, name: &str, len: usize) {
    println!("{}.{}() = {} bytes", category, name, len);
}

#[test]
fn test_mix_digest() {
    let mut prng = ChaCha20Rng::seed_from_u64(0);

    let channel_script = Sha256ChannelGadget::mix_digest();
    report_bitcoin_script_size("Channel", "mix_digest", channel_script.len());

    let init_state = random_hash(&mut prng);
    let elem = random_hash(&mut prng);

    let mut channel = Sha256Channel::new(init_state);
    channel.mix_digest(&elem);

    let final_state = channel.digest;

    let mut script = Script::new();
    script.push_hash(&elem);
    script.push_hash(&init_state);
    script.push_script(&channel_script.clone());
    script.push_hash(&final_state);
    script.push_opcode(OP_EQUAL);
    let exec_result = execute_script(&script);
    assert!(exec_result.success);
}

#[test]
fn test_mix_felt() {
    let mut prng = ChaCha20Rng::seed_from_u64(0);

    let channel_script = Sha256ChannelGadget::mix_felt();
    report_bitcoin_script_size("Channel", "mix_felt", channel_script.len());

    let init_state = random_hash(&mut prng);
    let elem = random_qm31(&mut prng);

    let mut channel = Sha256Channel::new(init_state);
    channel.mix_felt(&elem);

    let final_state = channel.digest;

    let mut script = Script::new();
    script.push_qm31(elem);
    script.push_hash(&init_state);
    script.push_script(&channel_script.clone());
    script.push_hash(&final_state);
    script.push_opcode(OP_EQUAL);
    let exec_result = execute_script(&script);
    assert!(exec_result.success);
}

#[test]
fn test_draw_8_elements() {
    let mut prng = ChaCha20Rng::seed_from_u64(0);

    for _ in 0..100 {
        let a = random_hash(&mut prng);

        let mut channel = Sha256Channel::new(a);
        let (b, hint) = channel.draw_m31_and_hints::<8>();

        let c = channel.digest;

        let mut script = Script::new();
        script.push_script(&Sha256ChannelGadget::push_draw_hint::<8>(&hint));
        script.push_hash(&a);
        squeeze_ops(&mut script);
        script.push_script(&Sha256ChannelGadget::unpack_multi_m31::<8>());
        for i in 0..8 {
            script.push_m31(b[i]);
            script.push_opcode(OP_EQUALVERIFY);
        }
        script.push_hash(&c);
        script.push_opcode(OP_EQUAL);
        let exec_result = execute_script(&script);
        assert!(exec_result.success);
    }
}

#[test]
fn test_draw_felt_with_hint() {
    let mut prng = ChaCha20Rng::seed_from_u64(0);

    let channel_script = Sha256ChannelGadget::draw_felt_with_hint();
    report_bitcoin_script_size("Channel", "draw_felt_with_hint", channel_script.len());

    for _ in 0..100 {
        let a = random_hash(&mut prng);

        let mut channel = Sha256Channel::new(a);
        let (b, hint) = channel.draw_felt_and_hints();

        let c = channel.digest;

        let mut script = Script::new();
        script.push_script(&Sha256ChannelGadget::push_draw_hint::<4>(&hint));
        script.push_hash(&a);
        script.push_script(&channel_script.clone());
        script.push_qm31(b);
        qm31_equalverify(&mut script);
        script.push_hash(&c);
        script.push_opcode(OP_EQUAL);
        let exec_result = execute_script(&script);
        assert!(exec_result.success);
    }
}

#[test]
fn test_draw_5numbers_with_hint() {
    let mut prng = ChaCha20Rng::seed_from_u64(0);

    let channel_script = Sha256ChannelGadget::draw_5numbers_with_hint(15);

    report_bitcoin_script_size("Channel", "draw_5numbers_with_hint", channel_script.len());

    for _ in 0..100 {
        let a = random_hash(&mut prng);

        let mut channel = Sha256Channel::new(a);
        let (b, hint) = channel.draw_5queries(15);

        let c = channel.digest;

        let mut script = Script::new();
        script.push_script(&Sha256ChannelGadget::push_draw_hint::<5>(&hint));
        script.push_hash(&a);
        script.push_script(&channel_script.clone());
        for i in [4usize, 3, 2, 1, 0] {
            script.push_number(b[i]);
            script.push_opcode(OP_EQUALVERIFY);
        }
        script.push_hash(&c);
        script.push_opcode(OP_EQUAL);
        let exec_result = execute_script(&script);
        assert!(exec_result.success);
    }
}

#[test]
fn test_hash_felt() {
    let mut prng = ChaCha20Rng::seed_from_u64(0);

    let commit_script = serialize_felt_gadget();
    report_bitcoin_script_size("QM31", "hash", commit_script.len());

    for _ in 0..100 {
        let a = random_qm31(&mut prng);
        let b = serialize_felt(&a);

        let mut script = Script::new();
        script.push_qm31(a);
        script.push_script(&commit_script.clone());
        script.push_data(&b.to_vec());
        script.push_opcode(OP_EQUAL);
        let exec_result = execute_script(&script);
        assert!(exec_result.success);
    }

    // make sure OP_CAT is not OP_SUCCESS
    let mut script = Script::new();
    script.push_opcode(OP_CAT);
    script.push_opcode(OP_RETURN);
    let exec_result = execute_script(&script);
    assert!(!exec_result.success);
}

#[test]
fn test_corner_case() {
    let mut prng = ChaCha20Rng::seed_from_u64(0);

    let mut h = [0u8; 32];
    h[3] = 0x80;
    for elem in h.iter_mut().skip(4) {
        *elem = prng.gen();
    }

    let (_, hint) = generate_hints::<1>(&h);

    let mut script = Script::new();
    script.push_script(&Sha256ChannelGadget::push_draw_hint::<1>(&hint));
    script.push_script(&Sha256ChannelGadget::unpack_multi_m31::<1>());
    script.push_opcode(OP_NOT);
    let exec_result = execute_script(&script);
    assert!(!exec_result.success);
}

#[test]
fn test_pushable() {
    let mut prng = ChaCha20Rng::seed_from_u64(0);

    let m31 = reduce_u64(prng.next_u64());
    let qm31 = QM31::from_m31(
        reduce_u64(prng.next_u64()),
        reduce_u64(prng.next_u64()),
        reduce_u64(prng.next_u64()),
        reduce_u64(prng.next_u64()),
    );

    let mut pushed = Script::new();
    pushed.push_m31(m31);
    let builder = bitcoin::script::Builder::new().push_int(m31.0 as i64);
    assert_eq!(builder.as_bytes(), pushed.as_bytes().as_slice());

    let mut pushed = Script::new();
    pushed.push_qm31(qm31);
    let builder = bitcoin::script::Builder::new()
        .push_int(qm31.1 .1 .0 as i64)
        .push_int(qm31.1 .0 .0 as i64)
        .push_int(qm31.0 .1 .0 as i64)
        .push_int(qm31.0 .0 .0 as i64);
    assert_eq!(builder.as_bytes(), pushed.as_bytes().as_slice());
}

/// Unpacks `N` words of `h` with the given hint on the stack machine; returns
/// the values left above the hash's place, first word first.
fn unpack_on_stack<const N: usize>(h: &[u8; 32], hint: &DrawHints) -> Option<Vec<Vec<u8>>> {
    let mut script = Script::new();
    for e in hint.encodings.iter() {
        script.push_data(e);
    }
    if N % 8 != 0 {
        script.push_data(&hint.remainder);
    }
    script.push_hash(h);
    script.push_script(&Sha256ChannelGadget::unpack_multi_m31::<N>());
    let mut stack: Vec<Vec<u8>> = Vec::new();
    run(script.as_bytes(), &mut stack)?;
    stack.reverse();
    Some(stack)
}

fn expected_stack(values: &[M31]) -> Vec<Vec<u8>> {
    values.iter().map(|v| encode_number(v.0 as i64)).collect()
}

fn check_agreement<const N: usize>(h: &[u8; 32], hint: &DrawHints) -> bool {
    let model = unpack_multi_m31(N, h, hint);
    let machine = unpack_on_stack::<N>(h, hint);
    match (&model, &machine) {
        (Some(values), Some(stack)) => assert_eq!(&expected_stack(values), stack),
        (None, None) => {}
        _ => panic!("the model and the stack machine disagree on {:?} with {:?}", h, hint),
    }
    model.is_some()
}

fn interesting_hashes() -> Vec<[u8; 32]> {
    let mut prng = ChaCha20Rng::seed_from_u64(7);
    let words: [[u8; 4]; 14] = [
        [0, 0, 0, 0],
        [1, 0, 0, 0],
        [16, 0, 0, 0],
        [17, 0, 0, 0],
        [0x7f, 0, 0, 0],
        [0x80, 0, 0, 0],
        [1, 0, 0, 0x80],
        [0xff, 0, 0, 0x80],
        [0, 0x80, 0, 0],
        [0, 0, 0x80, 0],
        [0, 0, 0x80, 0x80],
        [0, 0, 0, 0x01],
        [0xff, 0xff, 0xff, 0x7f],
        [0xff, 0xff, 0xff, 0xff],
    ];
    let mut hashes = Vec::new();
    for (k, w) in words.iter().enumerate() {
        let mut h = random_hash(&mut prng);
        let at = 4 * (k % 8);
        h[at..at + 4].copy_from_slice(w);
        hashes.push(h);
        let mut all = [0u8; 32];
        for i in 0..8 {
            all[4 * i..4 * i + 4].copy_from_slice(w);
        }
        hashes.push(all);
    }
    for _ in 0..20 {
        hashes.push(random_hash(&mut prng));
    }
    hashes
}

#[test]
fn recorded_hints_unpack_to_the_host_values() {
    for h in interesting_hashes() {
        let (v1, hint1) = generate_hints::<1>(&h);
        assert!(check_agreement::<1>(&h, &hint1));
        assert_eq!(unpack_multi_m31(1, &h, &hint1), Some(v1));
        let (v4, hint4) = generate_hints::<4>(&h);
        assert!(check_agreement::<4>(&h, &hint4));
        assert_eq!(unpack_multi_m31(4, &h, &hint4), Some(v4));
        let (v5, hint5) = generate_hints::<5>(&h);
        assert!(check_agreement::<5>(&h, &hint5));
        assert_eq!(unpack_multi_m31(5, &h, &hint5), Some(v5));
        let (v8, hint8) = generate_hints::<8>(&h);
        assert!(check_agreement::<8>(&h, &hint8));
        assert_eq!(unpack_multi_m31(8, &h, &hint8), Some(v8));
    }
}

#[test]
fn negative_zero_word_aborts() {
    let mut prng = ChaCha20Rng::seed_from_u64(0);
    for at in 0..8usize {
        let mut h = random_hash(&mut prng);
        h[4 * at..4 * at + 4].copy_from_slice(&[0, 0, 0, 0x80]);
        let (_, hint8) = generate_hints::<8>(&h);
        assert_eq!(hint8.encodings[at], vec![0x80u8]);
        assert!(!check_agreement::<8>(&h, &hint8));
        if at < 5 {
            let (_, hint5) = generate_hints::<5>(&h);
            assert!(!check_agreement::<5>(&h, &hint5));
        }
        if at < 4 {
            let (_, hint4) = generate_hints::<4>(&h);
            assert!(!check_agreement::<4>(&h, &hint4));
        }
        if at < 1 {
            let (_, hint1) = generate_hints::<1>(&h);
            assert!(!check_agreement::<1>(&h, &hint1));
            // whatever stands in for the encoding, the word cannot be matched
            for forged in [vec![], vec![0x80u8], vec![0u8, 0, 0, 0x80], vec![0u8]] {
                let mut other = hint1.clone();
                other.encodings[0] = forged;
                assert!(!check_agreement::<1>(&h, &other));
            }
        }
    }
}

#[test]
fn negative_zero_literal_stands_for_zero_only() {
    let mut prng = ChaCha20Rng::seed_from_u64(3);
    let mut h = random_hash(&mut prng);
    h[0..4].copy_from_slice(&[0, 0, 0, 0]);
    let (values, mut hint) = generate_hints::<1>(&h);
    assert_eq!(hint.encodings[0], Vec::<u8>::new());
    assert_eq!(values[0], M31(0));
    hint.encodings[0] = vec![0x80];
    assert!(check_agreement::<1>(&h, &hint));
    assert_eq!(unpack_multi_m31(1, &h, &hint), Some(vec![M31(0)]));
}

#[test]
fn every_flipped_bit_aborts() {
    for h in interesting_hashes().iter().take(12) {
        let (_, hint) = generate_hints::<5>(h);
        if !check_agreement::<5>(h, &hint) {
            continue;
        }
        for i in 0..5 {
            for at in 0..hint.encodings[i].len() {
                for bit in 0..8 {
                    let mut tampered = hint.clone();
                    tampered.encodings[i][at] ^= 1 << bit;
                    assert!(!check_agreement::<5>(h, &tampered));
                }
            }
        }
        for at in 0..hint.remainder.len() {
            for bit in 0..8 {
                let mut tampered = hint.clone();
                tampered.remainder[at] ^= 1 << bit;
                assert!(!check_agreement::<5>(h, &tampered));
            }
        }
    }
}

#[test]
fn misshapen_hints_abort() {
    let mut prng = ChaCha20Rng::seed_from_u64(11);
    let h = random_hash(&mut prng);
    let (_, hint) = generate_hints::<4>(&h);
    let mut short = hint.clone();
    short.remainder.pop();
    assert!(!check_agreement::<4>(&h, &short));
    let mut long = hint.clone();
    long.remainder.push(0);
    assert!(!check_agreement::<4>(&h, &long));
    let mut padded = hint.clone();
    padded.encodings[0].push(0);
    assert!(!check_agreement::<4>(&h, &padded));
    let mut missing = hint.clone();
    missing.encodings.pop();
    assert_eq!(unpack_multi_m31(4, &h, &missing), None);
}

#[test]
fn trim_gadget_keeps_the_low_bits() {
    assert_eq!(trim_m31(0x12345, 15), 0x2345);
    assert_eq!(trim_m31(0x7fff_fffe, 31), 0x7fff_fffe);
    assert_eq!(trim_m31(0x7fff_fffe, 40), 0x7fff_fffe);
    assert_eq!(trim_m31(0x7fff_fffe, 0), 0);
    assert_eq!(trim_m31(0x7fff_fffe, 1), 0);
    assert_eq!(trim_m31(0x7fff_fffd, 1), 1);
    assert_eq!(trim_m31_gadget(31).len(), 0);
    assert_eq!(trim_m31_gadget(30).as_bytes(), &vec![0x76u8, 0x04, 0, 0, 0, 0x40, 0xa2, 0x63, 0x04, 0, 0, 0, 0x40, 0x94, 0x68]);
    let mut prng = ChaCha20Rng::seed_from_u64(5);
    for logn in [0usize, 1, 7, 8, 15, 16, 23, 24, 30, 31, 32] {
        for _ in 0..10 {
            let v = reduce_u64(prng.next_u64()).0;
            let mut script = Script::new();
            script.push_number(v);
            script.push_script(&trim_m31_gadget(logn));
            let mut stack: Vec<Vec<u8>> = Vec::new();
            assert!(run(script.as_bytes(), &mut stack).is_some());
            assert_eq!(stack, vec![encode_number(trim_m31(v, logn) as i64)]);
        }
    }
}

#[test]
fn fragments_have_the_stated_bytes() {
    assert_eq!(Sha256ChannelGadget::mix_digest().as_bytes(), &vec![0x7eu8, 0xa8]);
    assert_eq!(Sha256ChannelGadget::reconstruct().len(), 56);
    let one = Sha256ChannelGadget::unpack_multi_m31::<1>();
    let mut expected: Vec<u8> = vec![0x74, 0x8c, 0x7a, 0x00, 0x7a];
    expected.extend_from_slice(Sha256ChannelGadget::reconstruct().as_bytes());
    expected.extend_from_slice(&[0x74, 0x8c, 0x7a, 0x7e, 0x88, 0x6c, 0x76, 0x91, 0x64, 0x8c, 0x68]);
    assert_eq!(one.as_bytes(), &expected);
    let eight = Sha256ChannelGadget::unpack_multi_m31::<8>();
    assert_eq!(eight.len(), 8 * 3 + 8 * (2 + 56) + 7 + 1 + 8 * 6);
    assert_eq!(one.len(), 72);
    assert_eq!(Sha256ChannelGadget::unpack_multi_m31::<4>().len(), 276);
    assert_eq!(Sha256ChannelGadget::unpack_multi_m31::<5>().len(), 344);
    assert_eq!(eight.len(), 544);
    let felt = Sha256ChannelGadget::draw_felt_with_hint();
    assert_eq!(&felt.as_bytes()[0..7], &[0xa8u8, 0x76, 0x01, 0x00, 0x7e, 0xa8, 0x7c]);
    assert_eq!(&felt.as_bytes()[7..], Sha256ChannelGadget::unpack_multi_m31::<4>().as_bytes().as_slice());
}

#[test]
fn pushes_match_the_bitcoin_builder() {
    let mut prng = ChaCha20Rng::seed_from_u64(9);
    let mut values: Vec<u32> = vec![0, 1, 2, 16, 17, 127, 128, 255, 256, 0x7fff, 0x8000, 0x7f_ffff, 0x80_0000, 0x7fff_ffff];
    for _ in 0..50 {
        values.push(reduce_u64(prng.next_u64()).0);
    }
    for v in values {
        let mut s = Script::new();
        s.push_number(v);
        let builder = bitcoin::script::Builder::new().push_int(v as i64);
        assert_eq!(builder.as_bytes(), s.as_bytes().as_slice());
    }
    for len in [2usize, 28, 32, 75, 76, 255, 256, 520] {
        let data: Vec<u8> = (0..len).map(|i| (i % 251) as u8).collect();
        let mut s = Script::new();
        s.push_data(&data);
        let bytes: &bitcoin::script::PushBytes = data.as_slice().try_into().unwrap();
        let builder = bitcoin::script::Builder::new().push_slice(bytes);
        assert_eq!(builder.as_bytes(), s.as_bytes().as_slice());
    }
    let mut s = Script::new();
    s.push_data(&vec![]);
    s.push_data(&vec![5]);
    s.push_data(&vec![0x81]);
    s.push_data(&vec![0x80]);
    assert_eq!(s.as_bytes(), &vec![0x00u8, 0x55, 0x4f, 0x01, 0x80]);
}

#[test]
fn random_point_hint_pushes_x_then_y() {
    let mut prng = ChaCha20Rng::seed_from_u64(2);
    let p = CirclePoint { x: random_qm31(&mut prng), y: random_qm31(&mut prng) };
    let mut expected = Script::new();
    expected.push_qm31(p.x);
    expected.push_qm31(p.y);
    assert_eq!(OODSGadget::push_random_point_hint(&p).as_bytes(), expected.as_bytes());
    let result = {
        let mut stack: Vec<Vec<u8>> = Vec::new();
        assert!(run(expected.as_bytes(), &mut stack).is_some());
        stack
    };
    assert_eq!(result.len(), 8);
    assert_eq!(result[7], encode_number(p.y.0 .0 .0 as i64));
    assert_eq!(result[0], encode_number(p.x.1 .1 .0 as i64));
}

#[test]
fn corner_case_with_the_hash_on_the_stack() {
    let mut prng = ChaCha20Rng::seed_from_u64(0);

    let mut h = [0u8; 32];
    h[3] = 0x80;
    for elem in h.iter_mut().skip(4) {
        *elem = prng.gen();
    }

    let (values, hint) = generate_hints::<1>(&h);
    assert_eq!(values, vec![M31(0)]);
    assert_eq!(hint.encodings, vec![vec![0x80u8]]);
    assert_eq!(hint.remainder, h[4..].to_vec());

    let mut script = Script::new();
    script.push_script(&Sha256ChannelGadget::push_draw_hint::<1>(&hint));
    script.push_hash(&h);
    script.push_script(&Sha256ChannelGadget::unpack_multi_m31::<1>());
    script.push_opcode(OP_NOT);
    let exec_result = execute_script(&script);
    assert!(!exec_result.success);
    assert!(exec_result.stack.len() != 1 || exec_result.stack[0] != vec![1u8]);
}

/// Stand-ins for the field gadgets: each one a push of its own marker byte,
/// so that the order of the gadgets can be read off the script.
fn marked_gadgets() -> FieldGadgets {
    let mark = |b: u8| Script { bytes: vec![0x01, b] };
    FieldGadgets {
        qm31_add: mark(0xa0),
        qm31_sub: mark(0xa1),
        qm31_mul: mark(0xa2),
        qm31_square: mark(0xa3),
        qm31_double: mark(0xa4),
        qm31_neg: mark(0xa5),
        qm31_dup: mark(0xa6),
        qm31_swap: mark(0xa7),
        qm31_rot: mark(0xa8),
        qm31_copy_0: mark(0xb0),
        qm31_copy_1: mark(0xb1),
        qm31_copy_2: mark(0xb2),
        qm31_roll_1: mark(0xc1),
        qm31_roll_2: mark(0xc2),
        qm31_roll_3: mark(0xc3),
        qm31_from_bottom: mark(0xd0),
        qm31_equalverify: mark(0xd1),
        qm31_toaltstack: mark(0xd2),
        qm31_fromaltstack: mark(0xd3),
        m31_sub: mark(0xe0),
        m31_add_n31: mark(0xe1),
        push_m31_one: mark(0xe2),
        push_n31_one: mark(0xe3),
    }
}

fn marks(bytes: &[u8]) -> Vec<u8> {
    bytes.chunks(2).map(|c| c[1]).collect()
}

#[test]
fn double_x_puts_the_gadgets_in_order() {
    let script = CirclePointSecureGadget::double_x(&marked_gadgets());
    assert_eq!(
        script.as_bytes(),
        &vec![0x01u8, 0xb0, 0x01, 0xa2, 0x01, 0xa4, 0x00, 0x00, 0x00, 0x51, 0x01, 0xa1]
    );
}

#[test]
fn get_random_point_puts_the_gadgets_in_order() {
    let script = OODSGadget::get_random_point(&marked_gadgets());
    let draw = Sha256ChannelGadget::draw_felt_with_hint();
    assert_eq!(&script.as_bytes()[..draw.len()], draw.as_bytes().as_slice());
    assert_eq!(
        marks(&script.as_bytes()[draw.len()..]),
        vec![
            0xa6, 0xa3, 0xa6, 0xe2, 0xe0, 0xa7, 0xe3, 0xe1, 0xa6, 0xd0, 0xa6, 0xa8, 0xa2, 0xa5,
            0xc3, 0xd1, 0xd0, 0xa6, 0xc3, 0xa2, 0xc3, 0xa4, 0xd1
        ]
    );
}

#[test]
fn verify_sampling_random_point_puts_the_gadgets_in_order() {
    let script = CirclePointSecureGadget::verify_sampling_random_point(&marked_gadgets());
    let draw = Sha256ChannelGadget::draw_felt_with_hint();
    assert_eq!(&script.as_bytes()[..draw.len()], draw.as_bytes().as_slice());
    let rest = &script.as_bytes()[draw.len()..];
    assert_eq!(&rest[..3], &[0x54u8, 0x7a, 0x6b]);
    let one = [0x00u8, 0x00, 0x00, 0x51];
    let mut expected: Vec<u8> = Vec::new();
    for m in [0xb1u8, 0xd2, 0xb2, 0xd2, 0xb0, 0xa4, 0xd2, 0xb0, 0xa2, 0xb0] {
        expected.extend_from_slice(&[0x01, m]);
    }
    expected.extend_from_slice(&one);
    for m in [0xc1u8, 0xa1, 0xd2] {
        expected.extend_from_slice(&[0x01, m]);
    }
    expected.extend_from_slice(&one);
    for m in [0xa0u8, 0xb0, 0xc2, 0xa2, 0xd3, 0xd1, 0xa2, 0xd3, 0xd1] {
        expected.extend_from_slice(&[0x01, m]);
    }
    expected.push(0x6c);
    for m in [0xd3u8, 0xd3] {
        expected.extend_from_slice(&[0x01, m]);
    }
    assert_eq!(&rest[3..], expected.as_slice());
}

#[test]
fn point_hints_differ_in_their_order() {
    let mut prng = ChaCha20Rng::seed_from_u64(8);
    let p = CirclePoint { x: random_qm31(&mut prng), y: random_qm31(&mut prng) };
    let mut y_then_x = Script::new();
    y_then_x.push_qm31(p.y);
    y_then_x.push_qm31(p.x);
    assert_eq!(CirclePointSecureGadget::push_random_point_hint(&p).as_bytes(), y_then_x.as_bytes());
    assert_ne!(OODSGadget::push_random_point_hint(&p).as_bytes(), y_then_x.as_bytes());
}
