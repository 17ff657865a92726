//! Keyed substitution boxes: the base box, its per-row masked copies, their
//! inverses, and the digest that turns a key segment into a mask.
use vstd::prelude::*;
use crate::bits::{lemma_xor_cancels, rotate_right, rotr};
use crate::field::{gf_inv_spec, gf_mul_spec, lemma_inverse};
use crate::tables::GfTables;

verus! {

/// The linear bit mix: `b` XORed with its rotations by 2, 4, 6 and 7 positions.
pub open spec fn bit_mix(b: u8) -> u8 {
    b ^ rotr(b, 2) ^ rotr(b, 4) ^ rotr(b, 6) ^ rotr(b, 7)
}

/// The inverse of the bit mix.
pub open spec fn bit_unmix(b: u8) -> u8 {
    b ^ rotr(b, 1) ^ rotr(b, 2) ^ rotr(b, 4) ^ rotr(b, 6)
}

proof fn lemma_bit_mix_inverts(b: u8)
    by (bit_vector)
    ensures
        bit_unmix(bit_mix(b)) == b,
        bit_mix(bit_unmix(b)) == b,
{
}

/// The key-independent base box: the bit mix of each byte's field inverse.
pub open spec fn base_box() -> Seq<u8> {
    Seq::new(256, |i: int| bit_mix(gf_inv_spec(i as u8)))
}

/// The round box for `mask`: every entry of the base box XORed with `mask`.
pub open spec fn round_box(mask: u8) -> Seq<u8> {
    Seq::new(256, |i: int| base_box()[i] ^ mask)
}

/// Some entry of `s` holds `y`.
pub open spec fn hits(s: Seq<u8>, y: u8) -> bool {
    exists|i: int| 0 <= i < 256 && #[trigger] s[i] == y
}

/// `s` is a permutation of the 256 byte values.
pub open spec fn is_permutation(s: Seq<u8>) -> bool {
    &&& s.len() == 256
    &&& forall|i: int, j: int| 0 <= i < 256 && 0 <= j < 256 && #[trigger] s[i] == #[trigger] s[j] ==> i == j
    &&& forall|y: u8| #[trigger] hits(s, y)
}

/// `t` undoes `s` and `s` undoes `t`: the two are mutually inverse bijections.
pub open spec fn inverse_pair(s: Seq<u8>, t: Seq<u8>) -> bool {
    &&& s.len() == 256
    &&& t.len() == 256
    &&& forall|i: int| 0 <= i < 256 ==> t[#[trigger] s[i] as int] == i
    &&& forall|y: int| 0 <= y < 256 ==> s[#[trigger] t[y] as int] == y
}

/// A key byte clamped to at least one.
pub open spec fn clamp(b: u8) -> u8 {
    if b == 0 {
        1
    } else {
        b
    }
}

/// The field product of the clamped bytes `seg[0..n]`, multiplied left to right.
pub open spec fn digest_prefix(seg: Seq<u8>, n: nat) -> u8
    decreases n,
{
    if n <= 1 {
        clamp(seg[0])
    } else {
        gf_mul_spec(digest_prefix(seg, (n - 1) as nat), clamp(seg[n - 1]))
    }
}

/// The mask that a key segment selects: the product of its clamped bytes.
pub open spec fn digest(seg: Seq<u8>) -> u8 {
    digest_prefix(seg, seg.len())
}

/// The base box is a permutation of the byte values.
pub proof fn lemma_base_box_permutation()
    ensures
        is_permutation(base_box()),
{
    let s = base_box();
    assert forall|i: int, j: int|
        0 <= i < 256 && 0 <= j < 256 && #[trigger] s[i] == #[trigger] s[j] implies i == j by {
        let a = i as u8;
        let b = j as u8;
        lemma_bit_mix_inverts(gf_inv_spec(a));
        lemma_bit_mix_inverts(gf_inv_spec(b));
        lemma_inverse(a);
        lemma_inverse(b);
    }
    assert forall|y: u8| #[trigger] hits(s, y) by {
        let x = gf_inv_spec(bit_unmix(y));
        lemma_inverse(bit_unmix(y));
        lemma_bit_mix_inverts(y);
        assert(s[x as int] == y);
    }
}

/// Every round box is a permutation of the byte values.
pub proof fn lemma_round_box_permutation(mask: u8)
    ensures
        is_permutation(round_box(mask)),
{
    lemma_base_box_permutation();
    let b = base_box();
    let s = round_box(mask);
    assert forall|i: int, j: int|
        0 <= i < 256 && 0 <= j < 256 && #[trigger] s[i] == #[trigger] s[j] implies i == j by {
        lemma_xor_cancels(b[i], mask);
        lemma_xor_cancels(b[j], mask);
    }
    assert forall|y: u8| #[trigger] hits(s, y) by {
        let z = y ^ mask;
        assert(hits(b, z));
        let i = choose|i: int| 0 <= i < 256 && b[i] == z;
        lemma_xor_cancels(y, mask);
        assert(s[i] == y);
    }
}

/// Applies the bit mix to `b`.
pub fn bit_transform(b: u8) -> (r: u8)
    ensures
        r == bit_mix(b),
{
    b ^ rotate_right(b, 2) ^ rotate_right(b, 4) ^ rotate_right(b, 6) ^ rotate_right(b, 7)
}

/// Builds the base box from tabulated inverses.
pub fn s0_gen(tables: &GfTables) -> (r: [u8; 256])
    requires
        tables.wf(),
    ensures
        r@ == base_box(),
{
    let mut s_box: [u8; 256] = [0; 256];
    let mut i: usize = 0;
    while i < 256
        invariant
            i <= 256,
            tables.wf(),
            s_box@.len() == 256,
            forall|j: int| 0 <= j < i ==> s_box@[j] == base_box()[j],
        decreases 256 - i,
    {
        s_box[i] = bit_transform(tables.inv(i as u8));
        i += 1;
    }
    assert(s_box@ =~= base_box());
    s_box
}

/// Builds the round box for `key` from the base box.
pub fn s_box_gen(s0: &[u8; 256], key: u8) -> (r: [u8; 256])
    requires
        s0@ == base_box(),
    ensures
        r@ == round_box(key),
{
    let mut s_box: [u8; 256] = *s0;
    let mut i: usize = 0;
    while i < 256
        invariant
            i <= 256,
            s0@ == base_box(),
            s_box@.len() == 256,
            forall|j: int| 0 <= j < i ==> s_box@[j] == round_box(key)[j],
            forall|j: int| i <= j < 256 ==> s_box@[j] == s0@[j],
        decreases 256 - i,
    {
        s_box[i] = s_box[i] ^ key;
        i += 1;
    }
    assert(s_box@ =~= round_box(key));
    s_box
}

/// The last position below `n` at which `s` holds `y`, or zero if there is none.
pub open spec fn last_index(s: Seq<u8>, y: u8, n: nat) -> u8
    decreases n,
{
    if n == 0 {
        0
    } else if s[n - 1] == y {
        (n - 1) as u8
    } else {
        last_index(s, y, (n - 1) as nat)
    }
}

proof fn lemma_last_index(s: Seq<u8>, y: u8, n: nat)
    requires
        n <= 256,
        s.len() == 256,
    ensures
        (exists|j: int| 0 <= j < n && s[j] == y) ==> s[last_index(s, y, n) as int] == y
            && last_index(s, y, n) < n,
        !(exists|j: int| 0 <= j < n && s[j] == y) ==> last_index(s, y, n) == 0,
    decreases n,
{
    if n > 0 {
        lemma_last_index(s, y, (n - 1) as nat);
        if s[n - 1] != y {
            if exists|j: int| 0 <= j < n && s[j] == y {
                let j = choose|j: int| 0 <= j < n && s[j] == y;
                assert(j < n - 1);
            }
        }
    }
}

/// For a permutation, the table of last positions is its two-sided inverse.
pub proof fn lemma_last_index_inverts(s: Seq<u8>)
    requires
        is_permutation(s),
    ensures
        inverse_pair(s, Seq::new(256, |y: int| last_index(s, y as u8, 256))),
{
    let t = Seq::new(256, |y: int| last_index(s, y as u8, 256));
    assert forall|i: int| 0 <= i < 256 implies t[#[trigger] s[i] as int] == i by {
        lemma_last_index(s, s[i], 256);
        let l = last_index(s, s[i], 256);
        assert(s[l as int] == s[i]);
    }
    assert forall|y: int| 0 <= y < 256 implies s[#[trigger] t[y] as int] == y by {
        assert(hits(s, y as u8));
        lemma_last_index(s, y as u8, 256);
    }
}

/// Builds the positional inverse of a box: entry `y` is the last `i` with
/// `s_box[i] == y` (zero if none), so that `inverse[s_box[i]] == i` for a permutation.
pub fn s_inv_gen(s_box: &[u8; 256]) -> (r: [u8; 256])
    ensures
        forall|y: int| 0 <= y < 256 ==> #[trigger] r@[y] == last_index(s_box@, y as u8, 256),
        is_permutation(s_box@) ==> inverse_pair(s_box@, r@),
{
    let mut s_inv: [u8; 256] = [0; 256];
    let mut i: usize = 0;
    while i < 256
        invariant
            i <= 256,
            s_box@.len() == 256,
            s_inv@.len() == 256,
            forall|y: int| 0 <= y < 256 ==> #[trigger] s_inv@[y] == last_index(s_box@, y as u8, i as nat),
        decreases 256 - i,
    {
        let v = s_box[i];
        s_inv[v as usize] = i as u8;
        i += 1;
    }
    proof {
        let t = Seq::new(256, |y: int| last_index(s_box@, y as u8, 256));
        assert(s_inv@ =~= t);
        if is_permutation(s_box@) {
            lemma_last_index_inverts(s_box@);
        }
    }
    s_inv
}

/// Turns an 8-byte key segment into an S-box mask.
pub fn digest_key(tables: &GfTables, key: &[u8; 8]) -> (r: u8)
    requires
        tables.wf(),
    ensures
        r == digest(key@),
{
    let mut byte: u8 = if key[0] == 0 { 1 } else { key[0] };
    let mut i: usize = 1;
    while i < 8
        invariant
            1 <= i <= 8,
            tables.wf(),
            byte == digest_prefix(key@, i as nat),
        decreases 8 - i,
    {
        let k = if key[i] == 0 { 1 } else { key[i] };
        byte = tables.mul(byte, k);
        i += 1;
    }
    byte
}

} // verus!
