//! Arithmetic in GF(2^8) under the reduction byte `GF_MODULUS`.
use vstd::prelude::*;

verus! {

/// The reduction polynomial x^8 + x^6 + x^5 + x^4 + 1, without its x^8 term.
pub const GF_MODULUS: u8 = 0b0111_0001;

/// Multiplication by x: a left shift, reduced when the top bit falls out.
pub open spec fn xtime(b: u8) -> u8 {
    if b >> 7u8 == 1u8 {
        (b << 1u8) ^ GF_MODULUS
    } else {
        b << 1u8
    }
}

/// `v` when bit `i` of `g` is set, else zero.
pub open spec fn pick(g: u8, i: u8, v: u8) -> u8 {
    if (g >> i) & 1u8 == 1u8 {
        v
    } else {
        0u8
    }
}

/// The field product: the XOR of `f * x^i` over the set bits `i` of `g`.
pub open spec fn gf_mul_spec(f: u8, g: u8) -> u8 {
    let x1 = xtime(f);
    let x2 = xtime(x1);
    let x3 = xtime(x2);
    let x4 = xtime(x3);
    let x5 = xtime(x4);
    let x6 = xtime(x5);
    let x7 = xtime(x6);
    pick(g, 0, f) ^ pick(g, 1, x1) ^ pick(g, 2, x2) ^ pick(g, 3, x3) ^ pick(g, 4, x4)
        ^ pick(g, 5, x5) ^ pick(g, 6, x6) ^ pick(g, 7, x7)
}

/// `f^254`, which is the multiplicative inverse of every nonzero `f` and zero at zero.
spec fn gf_pow254(f: u8) -> u8 {
    let a2 = gf_mul_spec(f, f);
    let a4 = gf_mul_spec(a2, a2);
    let a8 = gf_mul_spec(a4, a4);
    let a16 = gf_mul_spec(a8, a8);
    let a32 = gf_mul_spec(a16, a16);
    let a64 = gf_mul_spec(a32, a32);
    let a128 = gf_mul_spec(a64, a64);
    gf_mul_spec(
        gf_mul_spec(gf_mul_spec(a2, a4), gf_mul_spec(a8, a16)),
        gf_mul_spec(gf_mul_spec(a32, a64), a128),
    )
}

proof fn lemma_mul_distributes(f: u8, g: u8, h: u8)
    by (bit_vector)
    ensures
        gf_mul_spec(f, g ^ h) == gf_mul_spec(f, g) ^ gf_mul_spec(f, h),
{
}

proof fn lemma_no_zero_divisors(f: u8, g: u8)
    by (bit_vector)
    ensures
        f != 0 && g != 0 ==> gf_mul_spec(f, g) != 0,
{
}

/// The steps of computing `f^254` by repeated squaring, one product at a time.
spec fn pow254_steps(
    f: u8,
    a2: u8,
    a4: u8,
    a8: u8,
    a16: u8,
    a32: u8,
    a64: u8,
    a128: u8,
    b1: u8,
    b2: u8,
    b3: u8,
    b4: u8,
    b5: u8,
    p: u8,
) -> bool {
    &&& a2 == gf_mul_spec(f, f)
    &&& a4 == gf_mul_spec(a2, a2)
    &&& a8 == gf_mul_spec(a4, a4)
    &&& a16 == gf_mul_spec(a8, a8)
    &&& a32 == gf_mul_spec(a16, a16)
    &&& a64 == gf_mul_spec(a32, a32)
    &&& a128 == gf_mul_spec(a64, a64)
    &&& b1 == gf_mul_spec(a2, a4)
    &&& b2 == gf_mul_spec(a8, a16)
    &&& b3 == gf_mul_spec(a32, a64)
    &&& b4 == gf_mul_spec(b1, b2)
    &&& b5 == gf_mul_spec(b3, a128)
    &&& p == gf_mul_spec(b4, b5)
}

proof fn lemma_pow254_right_inverse(
    f: u8,
    a2: u8,
    a4: u8,
    a8: u8,
    a16: u8,
    a32: u8,
    a64: u8,
    a128: u8,
    b1: u8,
    b2: u8,
    b3: u8,
    b4: u8,
    b5: u8,
    p: u8,
)
    by (bit_vector)
    requires
        pow254_steps(f, a2, a4, a8, a16, a32, a64, a128, b1, b2, b3, b4, b5, p),
    ensures
        f != 0 ==> gf_mul_spec(f, p) == 1,
        f == 0 ==> p == 0,
{
}

#[verifier::rlimit(100)]
proof fn lemma_pow254_left_inverse(
    f: u8,
    a2: u8,
    a4: u8,
    a8: u8,
    a16: u8,
    a32: u8,
    a64: u8,
    a128: u8,
    b1: u8,
    b2: u8,
    b3: u8,
    b4: u8,
    b5: u8,
    p: u8,
)
    by (bit_vector)
    requires
        pow254_steps(f, a2, a4, a8, a16, a32, a64, a128, b1, b2, b3, b4, b5, p),
    ensures
        f != 0 ==> gf_mul_spec(p, f) == 1,
{
}

proof fn lemma_mul_by_zero(f: u8)
    by (bit_vector)
    ensures
        gf_mul_spec(f, 0) == 0,
        gf_mul_spec(0, f) == 0,
{
}

/// The multiplicative inverse: the `x` with `f * x == 1`, and zero for `f == 0`.
pub open spec fn gf_inv_spec(f: u8) -> u8 {
    if exists|x: u8| gf_mul_spec(f, x) == 1 {
        choose|x: u8| gf_mul_spec(f, x) == 1
    } else {
        0
    }
}

proof fn lemma_pow254_props(f: u8)
    ensures
        f != 0 ==> gf_mul_spec(f, gf_pow254(f)) == 1,
        f != 0 ==> gf_mul_spec(gf_pow254(f), f) == 1,
        f == 0 ==> gf_pow254(f) == 0,
        forall|x: u8| gf_mul_spec(f, x) == 1 ==> x == gf_pow254(f),
{
    let a2 = gf_mul_spec(f, f);
    let a4 = gf_mul_spec(a2, a2);
    let a8 = gf_mul_spec(a4, a4);
    let a16 = gf_mul_spec(a8, a8);
    let a32 = gf_mul_spec(a16, a16);
    let a64 = gf_mul_spec(a32, a32);
    let a128 = gf_mul_spec(a64, a64);
    let b1 = gf_mul_spec(a2, a4);
    let b2 = gf_mul_spec(a8, a16);
    let b3 = gf_mul_spec(a32, a64);
    let b4 = gf_mul_spec(b1, b2);
    let b5 = gf_mul_spec(b3, a128);
    let p = gf_mul_spec(b4, b5);
    assert(p == gf_pow254(f));
    lemma_pow254_right_inverse(f, a2, a4, a8, a16, a32, a64, a128, b1, b2, b3, b4, b5, p);
    lemma_pow254_left_inverse(f, a2, a4, a8, a16, a32, a64, a128, b1, b2, b3, b4, b5, p);
    assert forall|x: u8| gf_mul_spec(f, x) == 1 implies x == p by {
        lemma_mul_by_zero(x);
        lemma_mul_distributes(f, x, p);
        let d = x ^ p;
        assert(gf_mul_spec(f, x) ^ gf_mul_spec(f, p) == 0) by (bit_vector)
            requires
                gf_mul_spec(f, x) == 1,
                gf_mul_spec(f, p) == 1,
        ;
        lemma_no_zero_divisors(f, d);
        assert(x == p) by (bit_vector)
            requires
                x ^ p == 0,
        ;
    }
}

/// Every nonzero element has an inverse, the inverse is unique, and taking it
/// twice gives the element back.
pub proof fn lemma_inverse(f: u8)
    ensures
        f != 0 ==> gf_mul_spec(f, gf_inv_spec(f)) == 1,
        f != 0 ==> gf_inv_spec(f) != 0,
        f == 0 ==> gf_inv_spec(f) == 0,
        forall|x: u8| gf_mul_spec(f, x) == 1 ==> x == gf_inv_spec(f),
        gf_inv_spec(gf_inv_spec(f)) == f,
{
    lemma_inverse_is_pow254(f);
    let p = gf_pow254(f);
    lemma_pow254_props(f);
    lemma_pow254_props(p);
    lemma_inverse_is_pow254(p);
    lemma_mul_by_zero(f);
    if f != 0 {
        assert(p != 0);
        assert(f == gf_pow254(p));
    }
}

proof fn lemma_inverse_is_pow254(f: u8)
    ensures
        gf_inv_spec(f) == gf_pow254(f),
{
    lemma_pow254_props(f);
    lemma_mul_by_zero(f);
    if f != 0 {
        assert(gf_mul_spec(f, gf_pow254(f)) == 1);
    } else {
        assert(!exists|x: u8| gf_mul_spec(f, x) == 1);
    }
}

/// `f` multiplied by `x` `i` times.
pub open spec fn xtime_pow(f: u8, i: nat) -> u8
    decreases i,
{
    if i == 0 {
        f
    } else {
        xtime(xtime_pow(f, (i - 1) as nat))
    }
}

/// The XOR of the partial products for the lowest `n` bits of `g`.
pub open spec fn mul_prefix(f: u8, g: u8, n: nat) -> u8
    decreases n,
{
    if n == 0 {
        0
    } else {
        mul_prefix(f, g, (n - 1) as nat) ^ pick(g, (n - 1) as u8, xtime_pow(f, (n - 1) as nat))
    }
}

proof fn lemma_mul_prefix_full(f: u8, g: u8)
    ensures
        mul_prefix(f, g, 8) == gf_mul_spec(f, g),
{
    let p0 = pick(g, 0, f);
    assert(0u8 ^ p0 == p0) by (bit_vector);
    reveal_with_fuel(mul_prefix, 9);
    reveal_with_fuel(xtime_pow, 8);
}

/// Field addition.
pub fn gf_add(f: u8, g: u8) -> (r: u8)
    ensures
        r == f ^ g,
{
    f ^ g
}

/// Field subtraction, which in characteristic two is addition.
pub fn gf_sub(f: u8, g: u8) -> (r: u8)
    ensures
        r == f ^ g,
{
    gf_add(f, g)
}

/// Field multiplication, computed directly by shifting and reducing.
pub fn gf_mul(f: u8, g: u8) -> (r: u8)
    ensures
        r == gf_mul_spec(f, g),
{
    let mut result: u8 = 0;
    let mut i: u8 = 0;
    while i < 8
        invariant
            i <= 8,
            result == mul_prefix(f, g, i as nat),
        decreases 8 - i,
    {
        if (g >> i) & 1 == 1 {
            let mut j: u8 = f;
            let mut k: u8 = 0;
            while k < i
                invariant
                    k <= i,
                    i < 8,
                    j == xtime_pow(f, k as nat),
                decreases i - k,
            {
                if j >> 7 == 1 {
                    j = gf_sub(j << 1, GF_MODULUS);
                } else {
                    j = j << 1;
                }
                k += 1;
            }
            result = gf_add(result, j);
        } else {
            let r0 = result;
            assert(r0 ^ 0u8 == r0) by (bit_vector);
        }
        i += 1;
    }
    proof {
        lemma_mul_prefix_full(f, g);
    }
    result
}

/// Field inverse, found by searching every byte; zero has none and maps to zero.
pub fn gf_mul_inv(f: u8) -> (r: u8)
    ensures
        r == gf_inv_spec(f),
{
    proof {
        lemma_inverse(f);
    }
    let mut i: u16 = 0;
    while i < 256
        invariant
            i <= 256,
            forall|x: u8| x < i ==> gf_mul_spec(f, x) != 1,
        decreases 256 - i,
    {
        let x = i as u8;
        if gf_mul(f, x) == 1 {
            proof {
                lemma_inverse(f);
            }
            return x;
        }
        i += 1;
    }
    proof {
        lemma_inverse(f);
        let inv = gf_inv_spec(f);
        assert(gf_mul_spec(f, inv) != 1);
    }
    0
}

} // verus!
