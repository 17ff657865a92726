//! NarrowWay-512: blocks and keys of 64 bytes, eight rows, twenty rounds.
use vstd::prelude::*;
use crate::cipher::{decrypt_block, encrypt_block, to_block, NarrowWay};

verus! {

/// Rows of 8 bytes in a NarrowWay-512 block.
pub const ROWS_512: usize = 8;

/// Rounds of NarrowWay-512.
pub const ROUND_512: usize = 20;

/// The NarrowWay-512 block cipher.
pub struct Cipher512 {
    inner: NarrowWay,
}

impl Cipher512 {
    #[verifier::type_invariant]
    closed spec fn well_formed(&self) -> bool {
        &&& self.inner.wf()
        &&& self.inner.rows() == ROWS_512
        &&& self.inner.rounds() == ROUND_512
    }

    /// The master key.
    pub closed spec fn key(&self) -> Seq<u8> {
        self.inner.master()
    }

    /// Builds every round's key, boxes and inverse boxes for `key`.
    pub fn new(key: [u8; 64]) -> (c: Cipher512)
        ensures
            c.key() == key@,
    {
        Cipher512 { inner: NarrowWay::new(key.as_slice(), ROWS_512, ROUND_512) }
    }

    /// Encrypts a block through NarrowWay-512.
    pub fn encrypt(&self, block: [u8; 64]) -> (r: [u8; 64])
        ensures
            r@ == encrypt_block(self.key(), block@, ROWS_512 as nat, ROUND_512 as nat),
    {
        proof {
            use_type_invariant(self);
        }
        let out = self.inner.encrypt(block.as_slice());
        to_block(&out)
    }

    /// Decrypts a block through NarrowWay-512.
    pub fn decrypt(&self, block: [u8; 64]) -> (r: [u8; 64])
        ensures
            r@ == decrypt_block(self.key(), block@, ROWS_512 as nat, ROUND_512 as nat),
    {
        proof {
            use_type_invariant(self);
        }
        let out = self.inner.decrypt(block.as_slice());
        to_block(&out)
    }
}

} // verus!
