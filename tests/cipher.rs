use narrow_way::cipher::NarrowWay;
use narrow_way::{Cipher256, Cipher384, Cipher512};

fn bit_difference(a: &[u8], b: &[u8]) -> u32 {
    a.iter().zip(b).map(|(x, y)| (x ^ y).count_ones()).sum()
}

#[test]
fn zero_key_zero_block_256() {
    let c = Cipher256::new([0u8; 32]);
    let e = c.encrypt([0u8; 32]);
    assert_eq!(
        e,
        [
            124, 117, 208, 115, 23, 23, 36, 206, 5, 105, 250, 35, 209, 211, 96, 44, 43, 106, 153,
            145, 83, 46, 157, 42, 81, 209, 219, 222, 173, 61, 32, 144
        ]
    );
    assert_eq!(c.decrypt(e), [0u8; 32]);
    assert_eq!(Cipher256::new([0u8; 32]).decrypt(Cipher256::new([0u8; 32]).encrypt([0u8; 32])), [0u8; 32]);
}

#[test]
fn zero_key_zero_block_384() {
    let c = Cipher384::new([0u8; 48]);
    let e = c.encrypt([0u8; 48]);
    assert_eq!(
        e,
        [
            216, 124, 18, 23, 11, 39, 134, 184, 138, 200, 241, 203, 184, 175, 127, 171, 82, 236,
            53, 36, 31, 154, 154, 111, 118, 233, 132, 78, 10, 174, 193, 106, 88, 15, 43, 124,
            157, 65, 62, 86, 76, 9, 147, 192, 117, 8, 29, 236
        ]
    );
    assert_eq!(c.decrypt(e), [0u8; 48]);
}

#[test]
fn zero_key_zero_block_512() {
    let c = Cipher512::new([0u8; 64]);
    let e = c.encrypt([0u8; 64]);
    assert_eq!(
        e,
        [
            228, 163, 169, 117, 56, 22, 67, 164, 41, 153, 139, 86, 32, 76, 54, 5, 127, 112, 84,
            59, 150, 98, 180, 90, 183, 148, 133, 253, 99, 100, 53, 174, 43, 110, 198, 7, 142, 62,
            141, 134, 113, 245, 71, 153, 5, 87, 167, 211, 115, 172, 82, 100, 225, 40, 234, 21,
            221, 250, 125, 100, 47, 95, 232, 170
        ]
    );
    assert_eq!(c.decrypt(e), [0u8; 64]);
}

#[test]
fn counting_key_and_block_384() {
    let key: [u8; 48] = core::array::from_fn(|i| i as u8);
    let block: [u8; 48] = core::array::from_fn(|i| 100 + i as u8);
    let c = Cipher384::new(key);
    let e = c.encrypt(block);
    assert_eq!(
        e,
        [
            149, 55, 237, 117, 238, 92, 104, 64, 56, 45, 226, 119, 48, 189, 119, 128, 135, 217,
            167, 106, 32, 78, 7, 228, 46, 80, 239, 189, 31, 119, 218, 26, 23, 186, 10, 248, 97,
            205, 112, 47, 165, 167, 166, 244, 127, 41, 75, 250
        ]
    );
    assert_eq!(c.decrypt(e), block);
}

#[test]
fn round_trip_every_variant() {
    for seed in 0..4u8 {
        let k256: [u8; 32] = core::array::from_fn(|i| seed.wrapping_mul(91).wrapping_add(i as u8 * 7));
        let b256: [u8; 32] = core::array::from_fn(|i| (i as u8).wrapping_mul(seed + 3));
        let c256 = Cipher256::new(k256);
        assert_eq!(c256.decrypt(c256.encrypt(b256)), b256);

        let k384: [u8; 48] = core::array::from_fn(|i| seed ^ (i as u8 * 13));
        let b384: [u8; 48] = core::array::from_fn(|i| 255 - (i as u8).wrapping_mul(seed + 1));
        let c384 = Cipher384::new(k384);
        assert_eq!(c384.decrypt(c384.encrypt(b384)), b384);

        let k512: [u8; 64] = core::array::from_fn(|i| (i as u8).wrapping_add(seed * 50));
        let b512: [u8; 64] = core::array::from_fn(|i| (i as u8 * 3) ^ seed);
        let c512 = Cipher512::new(k512);
        assert_eq!(c512.decrypt(c512.encrypt(b512)), b512);
    }
}

#[test]
fn encryption_is_deterministic() {
    let key: [u8; 48] = core::array::from_fn(|i| (i * 5) as u8);
    let block: [u8; 48] = core::array::from_fn(|i| (i * 11) as u8);
    let c = Cipher384::new(key);
    let first = c.encrypt(block);
    let _ = c.decrypt(first);
    assert_eq!(c.encrypt(block), first);
    assert_eq!(Cipher384::new(key).encrypt(block), first);
}

#[test]
fn key_bit_flip_changes_about_half_the_bits() {
    let key = [0x3cu8; 32];
    let block = [0xa5u8; 32];
    let base = Cipher256::new(key).encrypt(block);
    let mut total = 0u32;
    let flips = 16;
    for bit in 0..flips {
        let mut k = key;
        k[bit * 2 % 32] ^= 1 << (bit % 8);
        let e = Cipher256::new(k).encrypt(block);
        total += bit_difference(&base, &e);
    }
    let average = total / flips as u32;
    assert!(average > 96 && average < 160, "average {}", average);
}

#[test]
fn variants_are_independent() {
    let c384 = Cipher384::new([7u8; 48]);
    let c512 = Cipher512::new([9u8; 64]);
    let e384 = c384.encrypt([0u8; 48]);
    let e512 = c512.encrypt([0u8; 64]);
    assert_ne!(&e384[..], &e512[..48]);
    assert_eq!(c384.encrypt([0u8; 48]), e384);
    assert_eq!(c512.decrypt(e512), [0u8; 64]);
}

#[test]
fn engine_matches_variant() {
    let key = [0u8; 32];
    let engine = NarrowWay::new(&key, 4, 16);
    let e = engine.encrypt(&[0u8; 32]);
    assert_eq!(e, Cipher256::new(key).encrypt([0u8; 32]).to_vec());
    assert_eq!(engine.decrypt(&e), vec![0u8; 32]);
}
