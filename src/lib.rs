//! NarrowWay: a family of substitution-permutation block ciphers on 256-, 384-
//! and 512-bit blocks, with every layer proved invertible.
pub mod bits;
pub mod confusion;
pub mod field;
pub mod tables;
pub mod sbox;
pub mod schedule;
pub mod diffusion;
pub mod cipher;
pub mod nw256;
pub mod nw384;
pub mod nw512;

pub use nw256::Cipher256;
pub use nw384::Cipher384;
pub use nw512::Cipher512;
