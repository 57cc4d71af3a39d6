//! The host side: digests, squeezes and the hints they record.

use bitcoin_circle_stark::channel::{serialize_felt, Sha256Channel};
use bitcoin_circle_stark::field::{CM31, M31, QM31};
use bitcoin_circle_stark::hint::generate_hints;
use bitcoin_circle_stark::replay::{draw_5numbers_with_hint, draw_felt_with_hint, reconstruct, unpack_multi_m31};
use rand::{Rng, SeedableRng};
use rand_chacha::ChaCha20Rng;

fn sha256(data: &[u8]) -> [u8; 32] {
    let digest = <bitcoin::hashes::sha256::Hash as bitcoin::hashes::Hash>::hash(data);
    <bitcoin::hashes::sha256::Hash as bitcoin::hashes::Hash>::to_byte_array(digest)
}

fn random_hash(prng: &mut ChaCha20Rng) -> [u8; 32] {
    let mut a = [0u8; 32];
    a.iter_mut().for_each(|v| *v = prng.gen());
    a
}

fn hex(bytes: &[u8]) -> String {
    let mut s = String::new();
    for b in bytes {
        s.push_str(&format!("{:02x}", b));
    }
    s
}

#[test]
fn absorbing_zeros_gives_the_known_digest() {
    let mut channel = Sha256Channel::new([0u8; 32]);
    channel.mix_digest(&[0u8; 32]);
    assert_eq!(
        hex(&channel.digest()),
        "f5a5fd42d16a20302798ef6ed309979b43003d2320d9f0e8ea9831a92759fb4b"
    );
}

#[test]
fn absorb_digest_hashes_value_then_digest() {
    let mut prng = ChaCha20Rng::seed_from_u64(0);
    let seed = random_hash(&mut prng);
    let digest = sha256(&seed);
    let value = random_hash(&mut prng);

    let mut channel = Sha256Channel::new(digest);
    channel.mix_digest(&value);

    let mut data = value.to_vec();
    data.extend_from_slice(&digest);
    assert_eq!(channel.digest(), sha256(&data));
    assert_ne!(channel.digest(), digest);
}

#[test]
fn absorb_element_hashes_its_bytes_then_digest() {
    let x = QM31(CM31(M31(1), M31(0x0203)), CM31(M31(0x040506), M31(0x0708090a)));
    assert_eq!(
        serialize_felt(&x),
        vec![0x0a, 0x09, 0x08, 0x07, 0x06, 0x05, 0x04, 0, 0x03, 0x02, 0, 0, 1, 0, 0, 0]
    );
    let digest = [7u8; 32];
    let mut channel = Sha256Channel::new(digest);
    channel.mix_felt(&x);
    let mut data = serialize_felt(&x);
    data.extend_from_slice(&digest);
    assert_eq!(channel.digest(), sha256(&data));
}

#[test]
fn squeeze_moves_the_digest_on() {
    let mut prng = ChaCha20Rng::seed_from_u64(1);
    let d = random_hash(&mut prng);
    let h = sha256(&d);
    let mut next = h.to_vec();
    next.push(0);
    let expected = sha256(&next);

    let mut channel = Sha256Channel::new(d);
    let (values, hint) = channel.draw_m31_and_hints::<8>();
    assert_eq!(channel.digest(), expected);
    let (host_values, host_hint) = generate_hints::<8>(&h);
    assert_eq!(values, host_values);
    assert_eq!(hint.encodings, host_hint.encodings);
    assert_eq!(hint.remainder, host_hint.remainder);

    let mut channel = Sha256Channel::new(d);
    channel.draw_felt_and_hints();
    assert_eq!(channel.digest(), expected);

    let mut channel = Sha256Channel::new(d);
    channel.draw_5queries(15);
    assert_eq!(channel.digest(), expected);
}

#[test]
fn squeeze_element_replays_from_its_hint() {
    let mut prng = ChaCha20Rng::seed_from_u64(0);
    let d = random_hash(&mut prng);
    let mut channel = Sha256Channel::new(d);
    let (felt, hint) = channel.draw_felt_and_hints();
    for c in [felt.0 .0, felt.0 .1, felt.1 .0, felt.1 .1] {
        assert!(c.0 <= 0x7fff_fffe);
    }
    assert_eq!(hint.encodings.len(), 4);
    assert_eq!(hint.remainder.len(), 16);
    let h = sha256(&d);
    assert_eq!(hint.remainder, h[16..].to_vec());
    let values = unpack_multi_m31(4, &h, &hint).unwrap();
    assert_eq!(QM31::from_m31(values[0], values[1], values[2], values[3]), felt);
    assert_eq!(draw_felt_with_hint(&d, &hint), Some((channel.digest(), felt)));
    let mut forged = hint.clone();
    forged.remainder[0] ^= 1;
    assert_eq!(draw_felt_with_hint(&d, &forged), None);
}

#[test]
fn squeeze_indices_are_in_range_and_replay() {
    let mut prng = ChaCha20Rng::seed_from_u64(0);
    let d = random_hash(&mut prng);
    let mut channel = Sha256Channel::new(d);
    let (queries, hint) = channel.draw_5queries(15);
    assert_eq!(queries.len(), 5);
    for q in queries.iter() {
        assert!(*q < (1 << 15));
    }
    assert_eq!(hint.remainder.len(), 12);
    let h = sha256(&d);
    let values = unpack_multi_m31(5, &h, &hint).unwrap();
    for i in 0..5 {
        assert_eq!(values[i].0 & 0x7fff, queries[i]);
    }
    assert_eq!(draw_5numbers_with_hint(&d, 15, &hint), Some((channel.digest(), queries)));
    let mut forged = hint.clone();
    forged.encodings[4] = vec![];
    assert_eq!(draw_5numbers_with_hint(&d, 15, &forged), None);
}

#[test]
fn same_operations_give_the_same_transcript() {
    let mut prng = ChaCha20Rng::seed_from_u64(4);
    let d = random_hash(&mut prng);
    let x = random_hash(&mut prng);
    let felt = QM31(CM31(M31(5), M31(6)), CM31(M31(7), M31(8)));
    let mut a = Sha256Channel::new(d);
    let mut b = Sha256Channel::new(d);
    a.mix_digest(&x);
    b.mix_digest(&x);
    a.mix_felt(&felt);
    b.mix_felt(&felt);
    let (fa, ha) = a.draw_felt_and_hints();
    let (fb, hb) = b.draw_felt_and_hints();
    assert_eq!(fa, fb);
    assert_eq!(ha.encodings, hb.encodings);
    assert_eq!(ha.remainder, hb.remainder);
    let (qa, ha) = a.draw_5queries(10);
    let (qb, hb) = b.draw_5queries(10);
    assert_eq!(qa, qb);
    assert_eq!(ha.encodings, hb.encodings);
    assert_eq!(ha.remainder, hb.remainder);
    assert_eq!(a.digest(), b.digest());
}

#[test]
fn hints_of_chosen_words() {
    let mut h = [0u8; 32];
    let words: [[u8; 4]; 8] = [
        [5, 0, 0, 0],
        [0xff, 0, 0, 0x80],
        [0, 0, 0, 0],
        [0, 0, 0x80, 0],
        [0x34, 0x12, 0, 0x80],
        [0xff, 0xff, 0xff, 0xff],
        [0x01, 0, 0, 0x80],
        [0x80, 0, 0, 0],
    ];
    for (i, w) in words.iter().enumerate() {
        h[4 * i..4 * i + 4].copy_from_slice(w);
    }
    let (values, hint) = generate_hints::<8>(&h);
    assert_eq!(
        values,
        vec![
            M31(4),
            M31(254),
            M31(0),
            M31(0x7f_ffff),
            M31(0x1233),
            M31(0x7fff_fffe),
            M31(0),
            M31(127)
        ]
    );
    assert_eq!(
        hint.encodings,
        vec![
            vec![5u8],
            vec![0xff, 0x80],
            vec![],
            vec![0, 0, 0x80, 0],
            vec![0x34, 0x92],
            vec![0xff, 0xff, 0xff, 0xff],
            vec![0x81],
            vec![0x80, 0x00],
        ]
    );
    assert!(hint.remainder.is_empty());
    assert_eq!(unpack_multi_m31(8, &h, &hint), Some(values));

    let (values, hint) = generate_hints::<5>(&h);
    assert_eq!(values.len(), 5);
    assert_eq!(hint.remainder, h[20..].to_vec());
    let (values, hint) = generate_hints::<0>(&h);
    assert!(values.is_empty());
    assert!(hint.encodings.is_empty());
    assert_eq!(hint.remainder, h.to_vec());
}

#[test]
fn encodings_are_the_numbers_of_the_script_machine() {
    let mut prng = ChaCha20Rng::seed_from_u64(6);
    for _ in 0..200 {
        let mut h = random_hash(&mut prng);
        let keep: usize = prng.gen_range(1..5);
        for k in keep..4 {
            h[k] = 0;
        }
        if prng.gen() {
            h[3] |= 0x80;
        }
        let magnitude = u32::from_le_bytes([h[0], h[1], h[2], h[3]]) & 0x7fff_ffff;
        if magnitude == 0 {
            continue;
        }
        let number = if h[3] & 0x80 != 0 { -(magnitude as i64) } else { magnitude as i64 };
        let mut out = [0u8; 8];
        let len = bitcoin::script::write_scriptint(&mut out, number);
        let (values, hint) = generate_hints::<1>(&h);
        assert_eq!(hint.encodings[0], out[..len].to_vec());
        assert_eq!(values[0], M31(magnitude - 1));
        assert_eq!(bitcoin::script::read_scriptint(&hint.encodings[0]).unwrap(), number);
    }
}

#[test]
fn reconstruct_rebuilds_words() {
    let r = reconstruct(&vec![0x85]).unwrap();
    assert_eq!(r.word, vec![5, 0, 0, 0x80]);
    assert_eq!(r.magnitude, 5);
    let r = reconstruct(&vec![]).unwrap();
    assert_eq!(r.word, vec![0, 0, 0, 0]);
    assert_eq!(r.magnitude, 0);
    let r = reconstruct(&vec![0x80]).unwrap();
    assert_eq!(r.word, vec![0, 0, 0, 0]);
    assert_eq!(r.magnitude, 0);
    let r = reconstruct(&vec![0xff, 0x00]).unwrap();
    assert_eq!(r.word, vec![0xff, 0, 0, 0]);
    assert_eq!(r.magnitude, 255);
    let r = reconstruct(&vec![0x01, 0x02, 0x83]).unwrap();
    assert_eq!(r.word, vec![1, 2, 3, 0x80]);
    assert_eq!(r.magnitude, 0x030201);
    let r = reconstruct(&vec![0xff, 0xff, 0xff, 0xff]).unwrap();
    assert_eq!(r.word, vec![0xff, 0xff, 0xff, 0xff]);
    assert_eq!(r.magnitude, 0x7fff_ffff);
    assert!(reconstruct(&vec![0x00]).is_none());
    assert!(reconstruct(&vec![0x05, 0x00]).is_none());
    assert!(reconstruct(&vec![0x05, 0x80]).is_none());
    assert!(reconstruct(&vec![1, 2, 3, 4, 5]).is_none());
    assert!(reconstruct(&vec![0, 0, 0, 0x80]).is_none());
}
