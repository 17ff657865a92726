//! The key schedule: round constants and the byte-chained round-key recurrence.
use vstd::prelude::*;
use crate::bits::{rotate_left, rotl};
use crate::field::{gf_inv_spec, gf_mul_spec};
use crate::tables::GfTables;

verus! {

/// `b` multiplied by two, `n` times over.
pub open spec fn doubled(b: u8, n: nat) -> u8
    decreases n,
{
    if n == 0 {
        b
    } else {
        gf_mul_spec(doubled(b, (n - 1) as nat), 2)
    }
}

/// The round constant of round `i`: two, doubled `i + 2` times.
pub open spec fn round_constant(i: nat) -> u8 {
    doubled(2, i + 2)
}

/// Byte `i` of the round key that `prev` yields in round `round`.
pub open spec fn round_key_byte(prev: Seq<u8>, round: nat, i: nat) -> u8
    decreases i,
{
    if i == 0 {
        gf_inv_spec(rotl(prev[0], 4)) ^ round_constant(round)
    } else {
        gf_inv_spec(rotl(prev[i as int], 4)) ^ round_key_byte(prev, round, (i - 1) as nat)
    }
}

/// The round key that `prev` yields in round `round`.
pub open spec fn round_key(prev: Seq<u8>, round: nat) -> Seq<u8> {
    Seq::new(prev.len(), |i: int| round_key_byte(prev, round, i as nat))
}

/// The key of round `round`, chained from the master key.
pub open spec fn schedule(master: Seq<u8>, round: nat) -> Seq<u8>
    decreases round,
{
    if round == 0 {
        round_key(master, 0)
    } else {
        round_key(schedule(master, (round - 1) as nat), round)
    }
}

/// Computes the round constant of round `i`.
pub fn rc(tables: &GfTables, i: usize) -> (r: u8)
    requires
        tables.wf(),
        i < usize::MAX - 2,
    ensures
        r == round_constant(i as nat),
{
    let mut byte: u8 = 2;
    let mut j: usize = 0;
    while j < i + 2
        invariant
            j <= i + 2,
            i < usize::MAX - 2,
            tables.wf(),
            byte == doubled(2, j as nat),
        decreases i + 2 - j,
    {
        byte = tables.mul(byte, 2);
        j += 1;
    }
    byte
}

/// Derives the round key of round `round` from the previous one (or the master key).
pub fn round_key_gen(tables: &GfTables, key: &[u8], round: usize) -> (r: Vec<u8>)
    requires
        tables.wf(),
        key@.len() >= 1,
        round < usize::MAX - 2,
    ensures
        r@ == round_key(key@, round as nat),
{
    let mut out: Vec<u8> = Vec::new();
    let first = tables.inv(rotate_left(key[0], 4)) ^ rc(tables, round);
    out.push(first);
    let mut i: usize = 1;
    while i < key.len()
        invariant
            1 <= i <= key@.len(),
            tables.wf(),
            out@.len() == i,
            forall|j: int| 0 <= j < i ==> out@[j] == round_key_byte(key@, round as nat, j as nat),
        decreases key@.len() - i,
    {
        let b = tables.inv(rotate_left(key[i], 4)) ^ out[i - 1];
        out.push(b);
        i += 1;
    }
    assert(out@ =~= round_key(key@, round as nat));
    out
}

} // verus!
