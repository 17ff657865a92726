use narrow_way::bits::{rotate_left, rotate_right};
use narrow_way::confusion::{func_f, func_f_inv};
use narrow_way::diffusion::{reverse_range, rotate_down, Matrix};
use narrow_way::sbox::{bit_transform, digest_key, s0_gen, s_box_gen, s_inv_gen};
use narrow_way::schedule::{rc, round_key_gen};
use narrow_way::tables::GfTables;

#[test]
fn bit_rotations() {
    assert_eq!(rotate_left(0b1000_0001, 1), 0b0000_0011);
    assert_eq!(rotate_right(0b1000_0001, 1), 0b1100_0000);
    assert_eq!(rotate_left(0x12, 4), 0x21);
}

#[test]
fn bit_transform_known_values() {
    assert_eq!(bit_transform(0), 0);
    assert_eq!(bit_transform(1), 87);
}

#[test]
fn base_box_known_entries() {
    let t = GfTables::new();
    let s0 = s0_gen(&t);
    assert_eq!(&s0[..8], &[0, 87, 142, 11, 71, 192, 133, 88]);
    assert_eq!(s0[255], 226);
}

#[test]
fn round_boxes_are_permutations_with_inverses() {
    let t = GfTables::new();
    let s0 = s0_gen(&t);
    for mask in [0u8, 1, 0x5a, 0xff] {
        let s = s_box_gen(&s0, mask);
        let inv = s_inv_gen(&s);
        let mut seen = [false; 256];
        for i in 0..256 {
            assert_eq!(s[i], s0[i] ^ mask);
            assert!(!seen[s[i] as usize]);
            seen[s[i] as usize] = true;
            assert_eq!(inv[s[i] as usize] as usize, i);
            assert_eq!(s[inv[i] as usize] as usize, i);
        }
    }
}

#[test]
fn digest_known_values() {
    let t = GfTables::new();
    assert_eq!(digest_key(&t, &[0; 8]), 1);
    assert_eq!(digest_key(&t, &[1, 2, 3, 4, 5, 6, 7, 8]), 82);
    assert_eq!(digest_key(&t, &[2, 0, 0, 0, 0, 0, 0, 0]), 2);
}

#[test]
fn round_constants() {
    let t = GfTables::new();
    let got: Vec<u8> = (0..5).map(|i| rc(&t, i)).collect();
    assert_eq!(got, vec![8, 16, 32, 64, 128]);
}

#[test]
fn round_key_of_zero_key() {
    let t = GfTables::new();
    let rk = round_key_gen(&t, &[0u8; 32], 0);
    assert_eq!(rk.len(), 32);
    assert_eq!(&rk[..8], &[8, 8, 8, 8, 8, 8, 8, 8]);
}

#[test]
fn round_key_chains_bytes() {
    let t = GfTables::new();
    let mut key = [0u8; 48];
    let base = round_key_gen(&t, &key, 3);
    key[10] = 1;
    let changed = round_key_gen(&t, &key, 3);
    assert_eq!(&base[..10], &changed[..10]);
    for i in 10..48 {
        assert_ne!(base[i], changed[i]);
    }
}

#[test]
fn reverse_and_rotate() {
    let mut v = vec![1u8, 2, 3, 4, 5];
    reverse_range(&mut v, 1, 4);
    assert_eq!(v, vec![1, 4, 3, 2, 5]);
    let mut w = vec![1u8, 2, 3, 4, 5, 6];
    rotate_down(&mut w, 2);
    assert_eq!(w, vec![5, 6, 1, 2, 3, 4]);
    rotate_down(&mut w, 0);
    assert_eq!(w, vec![5, 6, 1, 2, 3, 4]);
}

#[test]
fn matrix_round_trips_through_dump() {
    let bytes: Vec<u8> = (0..48).collect();
    let m = Matrix::new(&bytes, 6);
    assert_eq!(m.get_row(2), [16, 17, 18, 19, 20, 21, 22, 23]);
    assert_eq!(m.dump(), bytes);
}

#[test]
fn shift_columns_moves_column_down() {
    let bytes: Vec<u8> = (0..32).collect();
    let mut m = Matrix::new(&bytes, 4);
    m.shift_columns();
    // column 1 turns down by one row, column 4 stays
    assert_eq!(m.get_row(0), [0, 25, 18, 11, 4, 29, 22, 15]);
    assert_eq!(m.get_row(1), [8, 1, 26, 19, 12, 5, 30, 23]);
}

#[test]
fn shift_columns_inverse_restores_every_variant() {
    for rows in [4usize, 6, 8] {
        let bytes: Vec<u8> = (0..(8 * rows) as u8).map(|x| x.wrapping_mul(37)).collect();
        let mut m = Matrix::new(&bytes, rows);
        m.shift_columns();
        assert_ne!(m.dump(), bytes);
        m.shift_columns_inv();
        assert_eq!(m.dump(), bytes);
    }
}

#[test]
fn func_f_known_values() {
    let mut p = [1u8, 2, 3, 4, 5, 6, 7, 8];
    func_f(&mut p, [0; 8]);
    assert_eq!(p, [80, 128, 25, 0, 66, 136, 24, 92]);
    let mut q = [0u8; 8];
    func_f(&mut q, [1, 2, 3, 4, 5, 6, 7, 8]);
    assert_eq!(q, [5, 6, 1, 2, 7, 8, 3, 4]);
}

#[test]
fn func_f_inverse_restores_rows() {
    let keys = [[0u8; 8], [1, 2, 3, 4, 5, 6, 7, 8], [0xff; 8], [9, 0, 0x80, 3, 0x7f, 1, 2, 0xaa]];
    for key in keys {
        for seed in 0..64u8 {
            let row: [u8; 8] = core::array::from_fn(|i| seed.wrapping_mul(31).wrapping_add(i as u8 * 17));
            let mut p = row;
            func_f(&mut p, key);
            func_f_inv(&mut p, key);
            assert_eq!(p, row);
        }
    }
}

#[test]
fn inverse_of_a_non_permutation_keeps_last_position() {
    let mut s = [0u8; 256];
    s[10] = 7;
    s[20] = 7;
    let inv = s_inv_gen(&s);
    assert_eq!(inv[0], 255);
    assert_eq!(inv[7], 20);
    assert_eq!(inv[1], 0);
}
