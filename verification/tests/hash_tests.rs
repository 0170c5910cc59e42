use hls1024::params::{InitializeParameters, WordBitsValue, BytesPerElemValue};
use hls1024::derivation::{InitializeState, DeriveConst, ShakeInts};
use hls1024::rounds::{AbsorbMessageBlock, PerformRound, FinalizeState, Rol};
use hls1024::hash::{SplitIntoBlocks, Hls1024Hash};
use hls1024::extract::ExtractDigest;
use num_bigint_dig::BigUint;

fn params() -> hls1024::params::Params {
    InitializeParameters().expect("embedded modulus constant must parse")
}

fn prime_value() -> BigUint {
    let p = params();
    BigUint::from_bytes_be(p.prime_bytes())
}

#[test]
fn parameters_are_frozen_from_the_constant() {
    let p = params();
    assert_eq!(WordBitsValue(&p), 768);
    assert_eq!(BytesPerElemValue(&p), 96);
    assert_eq!(p.prime_bytes().len(), 96);
    assert_eq!(p.prime_bytes()[0], 0xFF);
}

#[test]
fn digest_is_always_128_bytes() {
    let p = params();
    for msg in [&b""[..], &b"a"[..], &b"selftest"[..], &[0u8; 100][..]] {
        let d = Hls1024Hash(&p, &msg.to_vec());
        assert_eq!(d.len(), 128);
    }
}

#[test]
fn empty_input_hashes() {
    let p = params();
    let d = Hls1024Hash(&p, &Vec::new());
    assert_eq!(d.len(), 128);
    let d2 = Hls1024Hash(&p, &vec![b'a']);
    assert_ne!(d, d2);
}

#[test]
fn hash_is_deterministic() {
    let p = params();
    let msg: Vec<u8> = b"determinism check".to_vec();
    let d1 = Hls1024Hash(&p, &msg);
    let d2 = Hls1024Hash(&p, &msg);
    assert_eq!(d1, d2);
    let p2 = params();
    let d3 = Hls1024Hash(&p2, &msg);
    assert_eq!(d1, d3);
}

#[test]
fn round_is_pure() {
    let p = params();
    let s = InitializeState(&p);
    let r1 = PerformRound(&p, &s);
    let r2 = PerformRound(&p, &s);
    assert_eq!(r1.len(), r2.len());
    for i in 0..r1.len() {
        assert_eq!(r1.elem(i), r2.elem(i));
    }
}

#[test]
fn state_elements_stay_below_the_modulus() {
    let p = params();
    let prime = prime_value();
    let check = |s: &hls1024::state::State| {
        assert_eq!(s.len(), 512);
        for i in 0..s.len() {
            let v = BigUint::from_bytes_be(s.elem(i));
            assert!(v < prime);
        }
    };
    let mut s = InitializeState(&p);
    check(&s);
    let blocks = SplitIntoBlocks(&b"state invariant scenario".to_vec());
    for b in 0..blocks.len() {
        s = AbsorbMessageBlock(&p, &s, &blocks[b]);
        check(&s);
        for _ in 0..16 {
            s = PerformRound(&p, &s);
            check(&s);
        }
    }
    s = FinalizeState(&p, &s);
    check(&s);
    let d = ExtractDigest(&p, &s);
    assert_eq!(d.len(), 128);
}

#[test]
fn padding_near_the_rate_boundary() {
    for len in [62usize, 63, 64] {
        let msg = vec![0xABu8; len];
        let blocks = SplitIntoBlocks(&msg);
        let padded_len = blocks.len() * 64;
        assert!(padded_len > 0);
        assert_eq!(padded_len % 64, 0);
        assert!(padded_len >= len + 2);
        for b in &blocks {
            assert_eq!(b.len(), 64);
        }
    }
}

#[test]
fn padding_content_for_a_full_block() {
    let msg = vec![0x5Au8; 64];
    let blocks = SplitIntoBlocks(&msg);
    assert_eq!(blocks.len(), 2);
    assert_eq!(blocks[0], msg);
    let mut expected = vec![0x01u8];
    expected.extend(vec![0x00u8; 62]);
    expected.push(0x80);
    assert_eq!(blocks[1], expected);
}

#[test]
fn padding_of_the_empty_message() {
    let blocks = SplitIntoBlocks(&Vec::new());
    assert_eq!(blocks.len(), 1);
    let mut expected = vec![0x01u8];
    expected.extend(vec![0x00u8; 62]);
    expected.push(0x80);
    assert_eq!(blocks[0], expected);
}

fn diffusion_trials(samples: &[&[u8]]) {
    let p = params();
    let mut good = 0usize;
    for msg in samples {
        let base = Hls1024Hash(&p, &msg.to_vec());
        let mut flipped = msg.to_vec();
        flipped[0] ^= 0x01;
        let other = Hls1024Hash(&p, &flipped);
        let mut differing = 0usize;
        for (a, b) in base.iter().zip(other.iter()) {
            differing += (a ^ b).count_ones() as usize;
        }
        if differing >= 256 {
            good += 1;
        }
    }
    assert!(good * 2 > samples.len());
}

#[test]
fn flipping_one_bit_diffuses() {
    diffusion_trials(&[b"sample-one", b"sample-two"]);
}

#[test]
fn flipping_one_bit_diffuses_longer_inputs() {
    diffusion_trials(&[b"a longer sample message for the diffusion check", b"yet another input"]);
}

#[test]
fn flipping_one_bit_diffuses_short_input() {
    diffusion_trials(&[b"x", b"q"]);
}

#[test]
fn derive_const_is_reduced_and_deterministic() {
    let p = params();
    let prime = prime_value();
    let a = DeriveConst(&p, b"init", 8);
    let b = DeriveConst(&p, b"init", 8);
    assert_eq!(a.len(), 8);
    for i in 0..8 {
        assert_eq!(a[i], b[i]);
        assert!(BigUint::from_bytes_be(&a[i]) < prime);
    }
    let c = DeriveConst(&p, b"other", 8);
    assert_ne!(a, c);
}

#[test]
fn shake_ints_chunk_widths() {
    let p = params();
    let seed = b"seed".to_vec();
    let xs = ShakeInts(&p, &seed, 4, None);
    assert_eq!(xs.len(), 4);
    for x in &xs {
        assert_eq!(x.len(), 96);
    }
    let ys = ShakeInts(&p, &seed, 3, Some(10));
    assert_eq!(ys.len(), 3);
    for y in &ys {
        assert_eq!(y.len(), 10);
    }
    let zs = ShakeInts(&p, &b"other seed".to_vec(), 4, None);
    assert_ne!(xs, zs);
}

#[test]
fn rotate_left_wraps_within_the_window() {
    let one = vec![1u8];
    let r = Rol(&one, 1, 8);
    assert_eq!(BigUint::from_bytes_be(&r), BigUint::from(2u32));
    let high = vec![0x80u8];
    let r2 = Rol(&high, 1, 8);
    assert_eq!(BigUint::from_bytes_be(&r2), BigUint::from(1u32));
    let r3 = Rol(&one, 9, 8);
    assert_eq!(BigUint::from_bytes_be(&r3), BigUint::from(2u32));
}

#[test]
fn regression_vector() {
    let p = params();
    let d = Hls1024Hash(&p, &b"selftest".to_vec());
    let expected = "bada94d6d018a8eab0b2c8b5ada18f49dc49bb1dd2850006f28ca587b9d4d6977b76e3fa41e4309389110eef96ba661843a326ad6b983dff7340bb0218b70b09f09beaf921c40347bccb9448aba32f99bd6e04c50f672deee489f1dcb36478666fa43260353cfd3b37eaf7215c8f6b6ac68878bc194080c169780f8f369722c1";
    assert_eq!(hex::encode(&d), expected);
}
