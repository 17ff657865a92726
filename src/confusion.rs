//! The confusion layer: a keyed network of XORs, bit rotations and a position
//! swap applied to one 8-byte row, together with its exact inverse.
use vstd::prelude::*;
use crate::bits::{lemma_rotations_cancel, lemma_xor_cancels, rotate_left, rotate_right, rotl, rotr};

verus! {

/// Step one: `p1 ^= p0 ^ p2`, `p6 ^= p5 ^ p7`.
pub open spec fn step1(p: Seq<u8>) -> Seq<u8> {
    seq![p[0], p[1] ^ (p[0] ^ p[2]), p[2], p[3], p[4], p[5], p[6] ^ (p[5] ^ p[7]), p[7]]
}

/// Step two: `p1 = rotl(p1, 3)`, `p2 ^= p4`, `p6 = rotr(p6, 2)`.
pub open spec fn step2(p: Seq<u8>) -> Seq<u8> {
    seq![p[0], rotl(p[1], 3), p[2] ^ p[4], p[3], p[4], p[5], rotr(p[6], 2), p[7]]
}

/// Step three: `p2 = rotl(p2, 2)`, `p5 ^= p3 ^ p6`.
pub open spec fn step3(p: Seq<u8>) -> Seq<u8> {
    seq![p[0], p[1], rotl(p[2], 2), p[3], p[4], p[5] ^ (p[3] ^ p[6]), p[6], p[7]]
}

/// Step four: `p4 = rotr(p4, 4) ^ p1`.
pub open spec fn step4(p: Seq<u8>) -> Seq<u8> {
    seq![p[0], p[1], p[2], p[3], rotr(p[4], 4) ^ p[1], p[5], p[6], p[7]]
}

/// Step five: `p3 ^= p4 ^ p7`, `p5 = rotl(p5, 1)`.
pub open spec fn step5(p: Seq<u8>) -> Seq<u8> {
    seq![p[0], p[1], p[2], p[3] ^ (p[4] ^ p[7]), p[4], rotl(p[5], 1), p[6], p[7]]
}

/// Step six: `p0 ^= p2`, `p7 ^= p5`.
pub open spec fn step6(p: Seq<u8>) -> Seq<u8> {
    seq![p[0] ^ p[2], p[1], p[2], p[3], p[4], p[5], p[6], p[7] ^ p[5]]
}

/// XOR of each byte with the byte of the key at the same position.
pub open spec fn add_key(p: Seq<u8>, k: Seq<u8>) -> Seq<u8> {
    Seq::new(8, |i: int| p[i] ^ k[i])
}

/// The half-block interleave: output `(p4, p5, p0, p1, p6, p7, p2, p3)`.
pub open spec fn interleave(p: Seq<u8>) -> Seq<u8> {
    seq![p[4], p[5], p[0], p[1], p[6], p[7], p[2], p[3]]
}

/// Undoes the half-block interleave.
pub open spec fn interleave_inv(q: Seq<u8>) -> Seq<u8> {
    seq![q[2], q[3], q[6], q[7], q[0], q[1], q[4], q[5]]
}

/// Undoes step six.
pub open spec fn step6_inv(p: Seq<u8>) -> Seq<u8> {
    seq![p[0] ^ p[2], p[1], p[2], p[3], p[4], p[5], p[6], p[7] ^ p[5]]
}

/// Undoes step five.
pub open spec fn step5_inv(p: Seq<u8>) -> Seq<u8> {
    let p5 = rotr(p[5], 1);
    seq![p[0], p[1], p[2], p[3] ^ (p[4] ^ p[7]), p[4], p5, p[6], p[7]]
}

/// Undoes step four.
pub open spec fn step4_inv(p: Seq<u8>) -> Seq<u8> {
    seq![p[0], p[1], p[2], p[3], rotl(p[4] ^ p[1], 4), p[5], p[6], p[7]]
}

/// Undoes step three.
pub open spec fn step3_inv(p: Seq<u8>) -> Seq<u8> {
    seq![p[0], p[1], rotr(p[2], 2), p[3], p[4], p[5] ^ (p[3] ^ p[6]), p[6], p[7]]
}

/// Undoes step two.
pub open spec fn step2_inv(p: Seq<u8>) -> Seq<u8> {
    seq![p[0], rotr(p[1], 3), p[2] ^ p[4], p[3], p[4], p[5], rotl(p[6], 2), p[7]]
}

/// Undoes step one.
pub open spec fn step1_inv(p: Seq<u8>) -> Seq<u8> {
    seq![p[0], p[1] ^ (p[0] ^ p[2]), p[2], p[3], p[4], p[5], p[6] ^ (p[5] ^ p[7]), p[7]]
}

/// The confusion function on row `p` under the 8-byte key segment `k`.
pub open spec fn func_f_spec(p: Seq<u8>, k: Seq<u8>) -> Seq<u8> {
    interleave(add_key(step6(step5(step4(step3(step2(step1(p)))))), k))
}

/// The inverse of the confusion function under the same key segment.
pub open spec fn func_f_inv_spec(q: Seq<u8>, k: Seq<u8>) -> Seq<u8> {
    step1_inv(step2_inv(step3_inv(step4_inv(step5_inv(step6_inv(add_key(interleave_inv(q), k)))))))
}

proof fn lemma_steps_invert(p: Seq<u8>, k: Seq<u8>)
    requires
        p.len() == 8,
        k.len() == 8,
    ensures
        step1_inv(step1(p)) == p,
        step2_inv(step2(p)) == p,
        step3_inv(step3(p)) == p,
        step4_inv(step4(p)) == p,
        step5_inv(step5(p)) == p,
        step6_inv(step6(p)) == p,
        add_key(add_key(p, k), k) == p,
        interleave_inv(interleave(p)) == p,
{
    lemma_xor_cancels(p[1], p[0] ^ p[2]);
    lemma_xor_cancels(p[6], p[5] ^ p[7]);
    assert(step1_inv(step1(p)) =~= p);
    lemma_rotations_cancel(p[1], 3);
    lemma_rotations_cancel(p[6], 2);
    lemma_xor_cancels(p[2], p[4]);
    assert(step2_inv(step2(p)) =~= p);
    lemma_rotations_cancel(p[2], 2);
    lemma_xor_cancels(p[5], p[3] ^ p[6]);
    assert(step3_inv(step3(p)) =~= p);
    lemma_rotations_cancel(p[4], 4);
    lemma_xor_cancels(rotr(p[4], 4), p[1]);
    assert(step4_inv(step4(p)) =~= p);
    lemma_rotations_cancel(p[5], 1);
    lemma_xor_cancels(p[3], p[4] ^ p[7]);
    assert(step5_inv(step5(p)) =~= p);
    lemma_xor_cancels(p[0], p[2]);
    lemma_xor_cancels(p[7], p[5]);
    assert(step6_inv(step6(p)) =~= p);
    assert forall|i: int| 0 <= i < 8 implies add_key(add_key(p, k), k)[i] == p[i] by {
        lemma_xor_cancels(p[i], k[i]);
    }
    assert(add_key(add_key(p, k), k) =~= p);
    assert(interleave_inv(interleave(p)) =~= p);
}

/// The inverse confusion function undoes the confusion function for every row
/// and every key segment.
pub proof fn lemma_func_f_round_trip(p: Seq<u8>, k: Seq<u8>)
    requires
        p.len() == 8,
        k.len() == 8,
    ensures
        func_f_inv_spec(func_f_spec(p, k), k) == p,
{
    let p1 = step1(p);
    let p2 = step2(p1);
    let p3 = step3(p2);
    let p4 = step4(p3);
    let p5 = step5(p4);
    let p6 = step6(p5);
    let p7 = add_key(p6, k);
    lemma_steps_invert(p, k);
    lemma_steps_invert(p1, k);
    lemma_steps_invert(p2, k);
    lemma_steps_invert(p3, k);
    lemma_steps_invert(p4, k);
    lemma_steps_invert(p5, k);
    lemma_steps_invert(p6, k);
    lemma_steps_invert(p7, k);
}

/// Applies the confusion function to row `p` in place, keyed by `key`.
pub fn func_f(p: &mut [u8; 8], key: [u8; 8])
    ensures
        final(p)@ == func_f_spec(old(p)@, key@),
{
    let ghost p0 = p@;
    p[1] = p[1] ^ (p[0] ^ p[2]);
    p[6] = p[6] ^ (p[5] ^ p[7]);
    assert(p@ =~= step1(p0));
    let ghost p1 = p@;

    p[1] = rotate_left(p[1], 3);
    p[2] = p[2] ^ p[4];
    p[6] = rotate_right(p[6], 2);
    assert(p@ =~= step2(p1));
    let ghost p2 = p@;

    p[2] = rotate_left(p[2], 2);
    p[5] = p[5] ^ (p[3] ^ p[6]);
    assert(p@ =~= step3(p2));
    let ghost p3 = p@;

    p[4] = rotate_right(p[4], 4);
    p[4] = p[4] ^ p[1];
    assert(p@ =~= step4(p3));
    let ghost p4 = p@;

    p[3] = p[3] ^ (p[4] ^ p[7]);
    p[5] = rotate_left(p[5], 1);
    assert(p@ =~= step5(p4));
    let ghost p5 = p@;

    p[0] = p[0] ^ p[2];
    p[7] = p[7] ^ p[5];
    assert(p@ =~= step6(p5));
    let ghost p6 = p@;

    let mut i: usize = 0;
    while i < 8
        invariant
            i <= 8,
            p@.len() == 8,
            forall|j: int| 0 <= j < i ==> p@[j] == p6[j] ^ key@[j],
            forall|j: int| i <= j < 8 ==> p@[j] == p6[j],
        decreases 8 - i,
    {
        p[i] = p[i] ^ key[i];
        i += 1;
    }
    assert(p@ =~= add_key(p6, key@));
    let ghost p7 = p@;

    let q: [u8; 8] = [p[4], p[5], p[0], p[1], p[6], p[7], p[2], p[3]];
    *p = q;
    assert(p@ =~= interleave(p7));
}

/// Applies the inverse confusion function to row `p` in place, keyed by `key`.
pub fn func_f_inv(p: &mut [u8; 8], key: [u8; 8])
    ensures
        final(p)@ == func_f_inv_spec(old(p)@, key@),
{
    let ghost q = p@;
    let r: [u8; 8] = [p[2], p[3], p[6], p[7], p[0], p[1], p[4], p[5]];
    *p = r;
    assert(p@ =~= interleave_inv(q));
    let ghost p8 = p@;

    let mut i: usize = 0;
    while i < 8
        invariant
            i <= 8,
            p@.len() == 8,
            forall|j: int| 0 <= j < i ==> p@[j] == p8[j] ^ key@[j],
            forall|j: int| i <= j < 8 ==> p@[j] == p8[j],
        decreases 8 - i,
    {
        p[i] = p[i] ^ key[i];
        i += 1;
    }
    assert(p@ =~= add_key(p8, key@));
    let ghost p7 = p@;

    p[7] = p[7] ^ p[5];
    p[0] = p[0] ^ p[2];
    assert(p@ =~= step6_inv(p7));
    let ghost p6 = p@;

    p[5] = rotate_right(p[5], 1);
    p[3] = p[3] ^ (p[4] ^ p[7]);
    assert(p@ =~= step5_inv(p6));
    let ghost p5 = p@;

    p[4] = p[4] ^ p[1];
    p[4] = rotate_left(p[4], 4);
    assert(p@ =~= step4_inv(p5));
    let ghost p4 = p@;

    p[5] = p[5] ^ (p[3] ^ p[6]);
    p[2] = rotate_right(p[2], 2);
    assert(p@ =~= step3_inv(p4));
    let ghost p3 = p@;

    p[6] = rotate_left(p[6], 2);
    p[2] = p[2] ^ p[4];
    p[1] = rotate_right(p[1], 3);
    assert(p@ =~= step2_inv(p3));
    let ghost p2 = p@;

    p[6] = p[6] ^ (p[5] ^ p[7]);
    p[1] = p[1] ^ (p[0] ^ p[2]);
    assert(p@ =~= step1_inv(p2));
}

} // verus!
