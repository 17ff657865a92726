//! NarrowWay-256: blocks and keys of 32 bytes, four rows, sixteen rounds.
use vstd::prelude::*;
use crate::cipher::{decrypt_block, encrypt_block, to_block, NarrowWay};

verus! {

/// Rows of 8 bytes in a NarrowWay-256 block.
pub const ROWS_256: usize = 4;

/// Rounds of NarrowWay-256.
pub const ROUND_256: usize = 16;

/// The NarrowWay-256 block cipher.
pub struct Cipher256 {
    inner: NarrowWay,
}

impl Cipher256 {
    #[verifier::type_invariant]
    closed spec fn well_formed(&self) -> bool {
        &&& self.inner.wf()
        &&& self.inner.rows() == ROWS_256
        &&& self.inner.rounds() == ROUND_256
    }

    /// The master key.
    pub closed spec fn key(&self) -> Seq<u8> {
        self.inner.master()
    }

    /// Builds every round's key, boxes and inverse boxes for `key`.
    pub fn new(key: [u8; 32]) -> (c: Cipher256)
        ensures
            c.key() == key@,
    {
        Cipher256 { inner: NarrowWay::new(key.as_slice(), ROWS_256, ROUND_256) }
    }

    /// Encrypts a block through NarrowWay-256.
    pub fn encrypt(&self, block: [u8; 32]) -> (r: [u8; 32])
        ensures
            r@ == encrypt_block(self.key(), block@, ROWS_256 as nat, ROUND_256 as nat),
    {
        proof {
            use_type_invariant(self);
        }
        let out = self.inner.encrypt(block.as_slice());
        to_block(&out)
    }

    /// Decrypts a block through NarrowWay-256.
    pub fn decrypt(&self, block: [u8; 32]) -> (r: [u8; 32])
        ensures
            r@ == decrypt_block(self.key(), block@, ROWS_256 as nat, ROUND_256 as nat),
    {
        proof {
            use_type_invariant(self);
        }
        let out = self.inner.decrypt(block.as_slice());
        to_block(&out)
    }
}

} // verus!
