//! NarrowWay-384: blocks and keys of 48 bytes, six rows, eighteen rounds.
use vstd::prelude::*;
use crate::cipher::{decrypt_block, encrypt_block, to_block, NarrowWay};

verus! {

/// Rows of 8 bytes in a NarrowWay-384 block.
pub const ROWS_384: usize = 6;

/// Rounds of NarrowWay-384.
pub const ROUND_384: usize = 18;

/// The NarrowWay-384 block cipher.
pub struct Cipher384 {
    inner: NarrowWay,
}

impl Cipher384 {
    #[verifier::type_invariant]
    closed spec fn well_formed(&self) -> bool {
        &&& self.inner.wf()
        &&& self.inner.rows() == ROWS_384
        &&& self.inner.rounds() == ROUND_384
    }

    /// The master key.
    pub closed spec fn key(&self) -> Seq<u8> {
        self.inner.master()
    }

    /// Builds every round's key, boxes and inverse boxes for `key`.
    pub fn new(key: [u8; 48]) -> (c: Cipher384)
        ensures
            c.key() == key@,
    {
        Cipher384 { inner: NarrowWay::new(key.as_slice(), ROWS_384, ROUND_384) }
    }

    /// Encrypts a block through NarrowWay-384.
    pub fn encrypt(&self, block: [u8; 48]) -> (r: [u8; 48])
        ensures
            r@ == encrypt_block(self.key(), block@, ROWS_384 as nat, ROUND_384 as nat),
    {
        proof {
            use_type_invariant(self);
        }
        let out = self.inner.encrypt(block.as_slice());
        to_block(&out)
    }

    /// Decrypts a block through NarrowWay-384.
    pub fn decrypt(&self, block: [u8; 48]) -> (r: [u8; 48])
        ensures
            r@ == decrypt_block(self.key(), block@, ROWS_384 as nat, ROUND_384 as nat),
    {
        proof {
            use_type_invariant(self);
        }
        let out = self.inner.decrypt(block.as_slice());
        to_block(&out)
    }
}

} // verus!
