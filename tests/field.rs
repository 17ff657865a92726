use narrow_way::field::{gf_add, gf_mul, gf_mul_inv, gf_sub};
use narrow_way::tables::GfTables;

#[test]
fn add_and_sub_are_xor() {
    assert_eq!(gf_add(0x57, 0x83), 0xd4);
    assert_eq!(gf_sub(0x57, 0x83), 0xd4);
    assert_eq!(gf_add(0xff, 0xff), 0);
}

#[test]
fn mul_known_products() {
    assert_eq!(gf_mul(0x57, 0x83), 157);
    assert_eq!(gf_mul(2, 0x80), 113);
    assert_eq!(gf_mul(3, 7), 9);
    assert_eq!(gf_mul(0, 0xab), 0);
    assert_eq!(gf_mul(1, 0xab), 0xab);
}

#[test]
fn mul_commutes_on_samples() {
    for f in 0..=255u8 {
        for g in [0u8, 1, 2, 3, 0x53, 0x80, 0xca, 0xff] {
            assert_eq!(gf_mul(f, g), gf_mul(g, f));
        }
    }
}

#[test]
fn inverse_known_values() {
    assert_eq!(gf_mul_inv(0), 0);
    assert_eq!(gf_mul_inv(1), 1);
    assert_eq!(gf_mul_inv(2), 184);
    assert_eq!(gf_mul_inv(3), 208);
    assert_eq!(gf_mul_inv(0x53), 19);
}

#[test]
fn every_nonzero_element_has_an_inverse() {
    for f in 1..=255u8 {
        let x = gf_mul_inv(f);
        assert_eq!(gf_mul(f, x), 1);
        assert_eq!(gf_mul_inv(x), f);
    }
}

#[test]
fn tables_agree_with_direct_computation() {
    let t = GfTables::new();
    for f in 0..=255u8 {
        assert_eq!(t.inv(f), gf_mul_inv(f));
        for g in 0..=255u8 {
            assert_eq!(t.mul(f, g), gf_mul(f, g));
        }
    }
}
