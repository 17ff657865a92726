//! The tabulated mode of the field arithmetic: products and inverses looked up
//! in tables that the direct algorithm fills once.
use vstd::prelude::*;
use crate::field::{gf_inv_spec, gf_mul, gf_mul_inv, gf_mul_spec};

verus! {

/// Lookup tables for multiplication (256 x 256, row-major) and inversion (256).
pub struct GfTables {
    mul: Vec<u8>,
    inv: Vec<u8>,
}

impl GfTables {
    /// The tabulated product of `f` and `g`.
    pub closed spec fn mul_entry(&self, f: u8, g: u8) -> u8 {
        self.mul@[f as int * 256 + g as int]
    }

    /// The tabulated inverse of `f`.
    pub closed spec fn inv_entry(&self, f: u8) -> u8 {
        self.inv@[f as int]
    }

    /// Both tables are full and every entry agrees with the direct computation.
    pub closed spec fn wf(&self) -> bool {
        &&& self.mul@.len() == 65536
        &&& self.inv@.len() == 256
        &&& forall|f: u8, g: u8| #[trigger]
            self.mul@[f as int * 256 + g as int] == gf_mul_spec(f, g)
        &&& forall|f: u8| #[trigger] self.inv@[f as int] == gf_inv_spec(f)
    }

    /// Table lookups and direct computation agree on every input.
    pub proof fn lemma_tables_match_direct(&self)
        requires
            self.wf(),
        ensures
            forall|f: u8, g: u8| #[trigger] self.mul_entry(f, g) == gf_mul_spec(f, g),
            forall|f: u8| #[trigger] self.inv_entry(f) == gf_inv_spec(f),
    {
    }

    /// Fills both tables by running the direct algorithm over every input.
    pub fn new() -> (r: GfTables)
        ensures
            r.wf(),
    {
        let mut mul: Vec<u8> = Vec::new();
        let mut f: u16 = 0;
        while f < 256
            invariant
                f <= 256,
                mul@.len() == f as int * 256,
                forall|a: u8, b: u8| a < f ==> #[trigger] mul@[a as int * 256 + b as int] == gf_mul_spec(a, b),
            decreases 256 - f,
        {
            let mut g: u16 = 0;
            while g < 256
                invariant
                    f < 256,
                    g <= 256,
                    mul@.len() == f as int * 256 + g as int,
                    forall|a: u8, b: u8| a < f ==> #[trigger] mul@[a as int * 256 + b as int] == gf_mul_spec(a, b),
                    forall|b: u8| b < g ==> #[trigger] mul@[f as int * 256 + b as int] == gf_mul_spec(f as u8, b),
                decreases 256 - g,
            {
                let v = gf_mul(f as u8, g as u8);
                mul.push(v);
                g += 1;
            }
            f += 1;
        }
        let mut inv: Vec<u8> = Vec::new();
        let mut h: u16 = 0;
        while h < 256
            invariant
                h <= 256,
                inv@.len() == h,
                forall|a: u8| a < h ==> #[trigger] inv@[a as int] == gf_inv_spec(a),
            decreases 256 - h,
        {
            let v = gf_mul_inv(h as u8);
            inv.push(v);
            h += 1;
        }
        GfTables { mul, inv }
    }

    /// The product `f * g`, looked up.
    pub fn mul(&self, f: u8, g: u8) -> (r: u8)
        requires
            self.wf(),
        ensures
            r == self.mul_entry(f, g),
            r == gf_mul_spec(f, g),
    {
        self.mul[f as usize * 256 + g as usize]
    }

    /// The inverse of `f`, looked up.
    pub fn inv(&self, f: u8) -> (r: u8)
        requires
            self.wf(),
        ensures
            r == self.inv_entry(f),
            r == gf_inv_spec(f),
    {
        self.inv[f as usize]
    }
}

} // verus!
