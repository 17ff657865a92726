//! The cipher proper, for any number of rows: the per-round tables built from
//! the master key, and the rounds that run forward to encrypt and backward to
//! decrypt.
use vstd::prelude::*;
use crate::confusion::{func_f, func_f_inv, func_f_inv_spec, func_f_spec, lemma_func_f_round_trip};
use crate::diffusion::{
    from_matrix, is_matrix, lemma_shift_columns_round_trip, shift_columns_inv_spec,
    shift_columns_spec, to_matrix, Matrix,
};
use crate::sbox::{
    digest, digest_key, inverse_pair, is_permutation, lemma_round_box_permutation, round_box,
    s0_gen, s_box_gen, s_inv_gen,
};
use crate::schedule::{round_key_gen, schedule};
use crate::tables::GfTables;

verus! {

/// The 8-byte segment of a round key that belongs to row `r`.
pub open spec fn row_key(key: Seq<u8>, r: int) -> Seq<u8> {
    key.subrange(8 * r, 8 * r + 8)
}

/// The S-box mask of row `r` under a round key.
pub open spec fn row_mask(key: Seq<u8>, r: int) -> u8 {
    digest(row_key(key, r))
}

/// The input that the box `s` sends to `y`.
pub open spec fn unbox(s: Seq<u8>, y: u8) -> u8 {
    choose|i: u8| s[i as int] == y
}

/// Every byte of row `r` put through that row's round box.
pub open spec fn substitute(m: Seq<Seq<u8>>, key: Seq<u8>) -> Seq<Seq<u8>> {
    Seq::new(m.len(), |r: int| Seq::new(8, |c: int| round_box(row_mask(key, r))[m[r][c] as int]))
}

/// Every byte of row `r` put back through that row's round box.
pub open spec fn substitute_inv(m: Seq<Seq<u8>>, key: Seq<u8>) -> Seq<Seq<u8>> {
    Seq::new(m.len(), |r: int| Seq::new(8, |c: int| unbox(round_box(row_mask(key, r)), m[r][c])))
}

/// The confusion function on every row, keyed by the row's segment.
pub open spec fn confuse(m: Seq<Seq<u8>>, key: Seq<u8>) -> Seq<Seq<u8>> {
    Seq::new(m.len(), |r: int| func_f_spec(m[r], row_key(key, r)))
}

/// The inverse confusion function on every row.
pub open spec fn confuse_inv(m: Seq<Seq<u8>>, key: Seq<u8>) -> Seq<Seq<u8>> {
    Seq::new(m.len(), |r: int| func_f_inv_spec(m[r], row_key(key, r)))
}

/// One round forward: diffusion, substitution, confusion.
pub open spec fn encrypt_round(m: Seq<Seq<u8>>, key: Seq<u8>) -> Seq<Seq<u8>> {
    confuse(substitute(shift_columns_spec(m), key), key)
}

/// One round backward: the inverse layers in the opposite order.
pub open spec fn decrypt_round(m: Seq<Seq<u8>>, key: Seq<u8>) -> Seq<Seq<u8>> {
    shift_columns_inv_spec(substitute_inv(confuse_inv(m, key), key))
}

/// Rounds `0..n` forward on `m` under the keys that `master` schedules.
pub open spec fn encrypt_rounds(m: Seq<Seq<u8>>, master: Seq<u8>, n: nat) -> Seq<Seq<u8>>
    decreases n,
{
    if n == 0 {
        m
    } else {
        encrypt_round(encrypt_rounds(m, master, (n - 1) as nat), schedule(master, (n - 1) as nat))
    }
}

/// Rounds `n - 1` down to `0` backward on `m`.
pub open spec fn decrypt_rounds(m: Seq<Seq<u8>>, master: Seq<u8>, n: nat) -> Seq<Seq<u8>>
    decreases n,
{
    if n == 0 {
        m
    } else {
        decrypt_rounds(decrypt_round(m, schedule(master, (n - 1) as nat)), master, (n - 1) as nat)
    }
}

/// The encryption of `block` (of `8 * rows` bytes) in `rounds` rounds under `master`.
pub open spec fn encrypt_block(master: Seq<u8>, block: Seq<u8>, rows: nat, rounds: nat) -> Seq<u8> {
    from_matrix(encrypt_rounds(to_matrix(block, rows as int), master, rounds))
}

/// The decryption of `block` (of `8 * rows` bytes) in `rounds` rounds under `master`.
pub open spec fn decrypt_block(master: Seq<u8>, block: Seq<u8>, rows: nat, rounds: nat) -> Seq<u8> {
    from_matrix(decrypt_rounds(to_matrix(block, rows as int), master, rounds))
}

/// Every round key is as long as the master key.
pub proof fn lemma_schedule_len(master: Seq<u8>, round: nat)
    ensures
        schedule(master, round).len() == master.len(),
    decreases round,
{
    if round > 0 {
        lemma_schedule_len(master, (round - 1) as nat);
    }
}

proof fn lemma_unbox(mask: u8, v: u8)
    ensures
        unbox(round_box(mask), round_box(mask)[v as int]) == v,
{
    let s = round_box(mask);
    lemma_round_box_permutation(mask);
    let y = s[v as int];
    assert(exists|i: u8| s[i as int] == y) by {
        assert(s[v as int] == y);
    }
    let i = unbox(s, y);
    assert(s[i as int] == s[v as int]);
}

proof fn lemma_unbox_by_table(s: Seq<u8>, t: Seq<u8>, y: u8)
    requires
        inverse_pair(s, t),
    ensures
        t[y as int] == unbox(s, y),
{
    let v = t[y as int];
    assert(s[v as int] == y);
    let i = unbox(s, y);
    assert(s[i as int] == y);
    assert(t[s[i as int] as int] == i);
}

/// One round backward undoes one round forward, and a round keeps the shape of the matrix.
pub proof fn lemma_round_round_trip(m: Seq<Seq<u8>>, key: Seq<u8>, rows: int)
    requires
        rows >= 1,
        is_matrix(m, rows),
        key.len() == 8 * rows,
    ensures
        is_matrix(encrypt_round(m, key), rows),
        decrypt_round(encrypt_round(m, key), key) == m,
{
    let a = shift_columns_spec(m);
    let b = substitute(a, key);
    let c = confuse(b, key);
    assert forall|r: int| 0 <= r < rows implies #[trigger] c[r].len() == 8 by {}
    assert(is_matrix(a, rows));
    assert(is_matrix(b, rows));
    let b2 = confuse_inv(c, key);
    assert forall|r: int| 0 <= r < rows implies #[trigger] b2[r] == b[r] by {
        lemma_func_f_round_trip(b[r], row_key(key, r));
    }
    assert(b2 =~= b);
    let a2 = substitute_inv(b2, key);
    assert forall|r: int| 0 <= r < rows implies #[trigger] a2[r] =~= a[r] by {
        assert forall|k: int| 0 <= k < 8 implies #[trigger] a2[r][k] == a[r][k] by {
            lemma_unbox(row_mask(key, r), a[r][k]);
        }
    }
    assert(a2 =~= a);
    lemma_shift_columns_round_trip(m);
}

/// Running the rounds backward undoes running them forward.
pub proof fn lemma_rounds_round_trip(m: Seq<Seq<u8>>, master: Seq<u8>, rows: int, n: nat)
    requires
        rows >= 1,
        is_matrix(m, rows),
        master.len() == 8 * rows,
    ensures
        is_matrix(encrypt_rounds(m, master, n), rows),
        decrypt_rounds(encrypt_rounds(m, master, n), master, n) == m,
    decreases n,
{
    if n > 0 {
        let k = schedule(master, (n - 1) as nat);
        lemma_schedule_len(master, (n - 1) as nat);
        lemma_rounds_round_trip(m, master, rows, (n - 1) as nat);
        lemma_round_round_trip(encrypt_rounds(m, master, (n - 1) as nat), k, rows);
    }
}

/// Reading a block into a matrix and writing it out again gives the block back.
pub proof fn lemma_matrix_of_block(b: Seq<u8>, rows: int)
    requires
        rows >= 0,
        b.len() == 8 * rows,
    ensures
        is_matrix(to_matrix(b, rows), rows),
        from_matrix(to_matrix(b, rows)) == b,
{
    let m = to_matrix(b, rows);
    assert forall|k: int| 0 <= k < b.len() implies #[trigger] from_matrix(m)[k] == b[k] by {
        let r = k / 8;
        let c = k % 8;
        assert(8 * r + c == k && 0 <= c < 8 && 0 <= r < rows) by (nonlinear_arith)
            requires
                r == k / 8,
                c == k % 8,
                0 <= k < 8 * rows,
        ;
    }
    assert(from_matrix(m) =~= b);
}

/// Writing a matrix out and reading it back gives the matrix back.
pub proof fn lemma_block_of_matrix(m: Seq<Seq<u8>>, rows: int)
    requires
        rows >= 0,
        is_matrix(m, rows),
    ensures
        to_matrix(from_matrix(m), rows) == m,
{
    let b = from_matrix(m);
    let t = to_matrix(b, rows);
    assert forall|r: int| 0 <= r < rows implies #[trigger] t[r] =~= m[r] by {
        assert forall|c: int| 0 <= c < 8 implies #[trigger] t[r][c] == m[r][c] by {
            let k = 8 * r + c;
            assert(k / 8 == r && k % 8 == c && 0 <= k < 8 * rows) by (nonlinear_arith)
                requires
                    k == 8 * r + c,
                    0 <= c < 8,
                    0 <= r < rows,
            ;
        }
    }
    assert(t =~= m);
}

/// Decryption undoes encryption: for every master key and every block.
pub proof fn lemma_block_round_trip(master: Seq<u8>, block: Seq<u8>, rows: nat, rounds: nat)
    requires
        rows >= 1,
        master.len() == 8 * rows,
        block.len() == 8 * rows,
    ensures
        decrypt_block(master, encrypt_block(master, block, rows, rounds), rows, rounds) == block,
{
    let m = to_matrix(block, rows as int);
    lemma_matrix_of_block(block, rows as int);
    lemma_rounds_round_trip(m, master, rows as int, rounds);
    let e = encrypt_rounds(m, master, rounds);
    lemma_block_of_matrix(e, rows as int);
}

/// Copies the 8-byte segment of `key` that belongs to row `r`.
fn row_segment(key: &[u8], r: usize) -> (seg: [u8; 8])
    requires
        8 * r + 8 <= key@.len(),
    ensures
        seg@ == row_key(key@, r as int),
{
    let mut seg: [u8; 8] = [0; 8];
    let n = key.len();
    let mut i: usize = 0;
    while i < 8
        invariant
            i <= 8,
            n == key@.len(),
            8 * r + 8 <= key@.len(),
            forall|j: int| 0 <= j < i ==> #[trigger] seg@[j] == key@[8 * r + j],
        decreases 8 - i,
    {
        seg[i] = key[8 * r + i];
        i += 1;
    }
    assert(seg@ =~= row_key(key@, r as int));
    seg
}

/// A NarrowWay cipher with a given number of rows and rounds, with every
/// per-round table built from its master key.
pub struct NarrowWay {
    rows: usize,
    rounds: usize,
    master: Ghost<Seq<u8>>,
    round_keys: Vec<Vec<u8>>,
    s_boxes: Vec<Vec<[u8; 256]>>,
    s_inves: Vec<Vec<[u8; 256]>>,
}

impl NarrowWay {
    /// The master key.
    pub closed spec fn master(&self) -> Seq<u8> {
        self.master@
    }

    /// The number of rows of 8 bytes in a block.
    pub closed spec fn rows(&self) -> nat {
        self.rows as nat
    }

    /// The number of rounds.
    pub closed spec fn rounds(&self) -> nat {
        self.rounds as nat
    }

    /// The round box of round `t`, row `r`.
    pub closed spec fn s_box(&self, t: int, r: int) -> Seq<u8> {
        self.s_boxes@[t]@[r]@
    }

    /// The inverse box of round `t`, row `r`.
    pub closed spec fn s_inv(&self, t: int, r: int) -> Seq<u8> {
        self.s_inves@[t]@[r]@
    }

    /// Every round box of the cipher is a permutation of the byte values, and its
    /// paired inverse box undoes it.
    pub proof fn lemma_boxes_invert(&self, t: int, r: int)
        requires
            self.wf(),
            0 <= t < self.rounds(),
            0 <= r < self.rows(),
        ensures
            self.s_box(t, r) == round_box(row_mask(schedule(self.master(), t as nat), r)),
            is_permutation(self.s_box(t, r)),
            inverse_pair(self.s_box(t, r), self.s_inv(t, r)),
    {
        lemma_round_box_permutation(row_mask(schedule(self.master@, t as nat), r));
    }

    /// Each round's key, boxes and inverse boxes are those its master key schedules.
    pub closed spec fn wf(&self) -> bool {
        &&& 1 <= self.rows
        &&& self.master@.len() == 8 * self.rows
        &&& self.round_keys@.len() == self.rounds
        &&& self.s_boxes@.len() == self.rounds
        &&& self.s_inves@.len() == self.rounds
        &&& forall|t: int| 0 <= t < self.rounds ==> #[trigger] self.round_keys@[t]@ == schedule(self.master@, t as nat)
        &&& forall|t: int| 0 <= t < self.rounds ==> (#[trigger] self.s_boxes@[t])@.len() == self.rows
        &&& forall|t: int| 0 <= t < self.rounds ==> (#[trigger] self.s_inves@[t])@.len() == self.rows
        &&& forall|t: int, r: int| 0 <= t < self.rounds && 0 <= r < self.rows ==>
            (#[trigger] self.s_boxes@[t]@[r])@ == round_box(row_mask(schedule(self.master@, t as nat), r))
        &&& forall|t: int, r: int| 0 <= t < self.rounds && 0 <= r < self.rows ==>
            inverse_pair(self.s_boxes@[t]@[r]@, (#[trigger] self.s_inves@[t]@[r])@)
    }

    /// Builds the round keys, the round boxes and their inverses for `key`, a
    /// master key of `8 * rows` bytes.
    pub fn new(key: &[u8], rows: usize, rounds: usize) -> (c: NarrowWay)
        requires
            1 <= rows,
            key@.len() == 8 * rows,
            rounds < usize::MAX - 2,
        ensures
            c.wf(),
            c.master() == key@,
            c.rows() == rows,
            c.rounds() == rounds,
    {
        let tables = GfTables::new();
        let s0 = s0_gen(&tables);
        let mut round_keys: Vec<Vec<u8>> = Vec::new();
        let mut s_boxes: Vec<Vec<[u8; 256]>> = Vec::new();
        let mut s_inves: Vec<Vec<[u8; 256]>> = Vec::new();
        let mut round: usize = 0;
        while round < rounds
            invariant
                round <= rounds,
                rounds < usize::MAX - 2,
                1 <= rows,
                key@.len() == 8 * rows,
                tables.wf(),
                s0@ == crate::sbox::base_box(),
                round_keys@.len() == round,
                s_boxes@.len() == round,
                s_inves@.len() == round,
                forall|t: int| 0 <= t < round ==> #[trigger] round_keys@[t]@ == schedule(key@, t as nat),
                forall|t: int| 0 <= t < round ==> (#[trigger] s_boxes@[t])@.len() == rows,
                forall|t: int| 0 <= t < round ==> (#[trigger] s_inves@[t])@.len() == rows,
                forall|t: int, r: int| 0 <= t < round && 0 <= r < rows ==>
                    (#[trigger] s_boxes@[t]@[r])@ == round_box(row_mask(schedule(key@, t as nat), r)),
                forall|t: int, r: int| 0 <= t < round && 0 <= r < rows ==>
                    inverse_pair(s_boxes@[t]@[r]@, (#[trigger] s_inves@[t]@[r])@),
            decreases rounds - round,
        {
            proof {
                if round > 0 {
                    lemma_schedule_len(key@, (round - 1) as nat);
                }
            }
            let round_key = if round == 0 {
                round_key_gen(&tables, key, 0)
            } else {
                round_key_gen(&tables, round_keys[round - 1].as_slice(), round)
            };
            assert(round_key@ == schedule(key@, round as nat));
            proof {
                lemma_schedule_len(key@, round as nat);
            }
            let mut boxes: Vec<[u8; 256]> = Vec::new();
            let mut inves: Vec<[u8; 256]> = Vec::new();
            let mut s: usize = 0;
            while s < rows
                invariant
                    s <= rows,
                    1 <= rows,
                    tables.wf(),
                    s0@ == crate::sbox::base_box(),
                    round_key@ == schedule(key@, round as nat),
                    round_key@.len() == 8 * rows,
                    boxes@.len() == s,
                    inves@.len() == s,
                    forall|r: int| 0 <= r < s ==>
                        (#[trigger] boxes@[r])@ == round_box(row_mask(schedule(key@, round as nat), r)),
                    forall|r: int| 0 <= r < s ==> inverse_pair(boxes@[r]@, (#[trigger] inves@[r])@),
                decreases rows - s,
            {
                let seg = row_segment(round_key.as_slice(), s);
                let mask = digest_key(&tables, &seg);
                let s_box = s_box_gen(&s0, mask);
                proof {
                    lemma_round_box_permutation(mask);
                }
                let s_inv = s_inv_gen(&s_box);
                boxes.push(s_box);
                inves.push(s_inv);
                s += 1;
            }
            round_keys.push(round_key);
            s_boxes.push(boxes);
            s_inves.push(inves);
            round += 1;
        }
        NarrowWay { rows, rounds, master: Ghost(key@), round_keys, s_boxes, s_inves }
    }

    /// Puts every byte of row `r` through the round box of round `round`, row `r`.
    fn sub_bytes(&self, round: usize, mat: &mut Matrix)
        requires
            self.wf(),
            round < self.rounds,
            is_matrix(old(mat)@, self.rows as int),
        ensures
            final(mat)@ == substitute(old(mat)@, schedule(self.master@, round as nat)),
            is_matrix(final(mat)@, self.rows as int),
    {
        let ghost m = mat@;
        let ghost target = substitute(m, schedule(self.master@, round as nat));
        let ghost rk = schedule(self.master@, round as nat);
        let mut row: usize = 0;
        while row < self.rows
            invariant
                self.wf(),
                round < self.rounds,
                row <= self.rows,
                is_matrix(m, self.rows as int),
                rk == schedule(self.master@, round as nat),
                target.len() == self.rows,
                forall|r: int| 0 <= r < self.rows ==> #[trigger] target[r] == Seq::new(8, |c: int| round_box(row_mask(rk, r))[m[r][c] as int]),
                mat@.len() == self.rows,
                forall|r: int| 0 <= r < row ==> #[trigger] mat@[r] == target[r],
                forall|r: int| row <= r < self.rows ==> #[trigger] mat@[r] == m[r],
            decreases self.rows - row,
        {
            let s_box = &self.s_boxes[round][row];
            assert(s_box@ == round_box(row_mask(schedule(self.master@, round as nat), row as int)));
            assert(mat@[row as int] == m[row as int]);
            let mut line = mat.get_row(row);
            let ghost before = line@;
            let mut col: usize = 0;
            while col < 8
                invariant
                    col <= 8,
                    before.len() == 8,
                    forall|c: int| 0 <= c < col ==> #[trigger] line@[c] == s_box@[before[c] as int],
                    forall|c: int| col <= c < 8 ==> #[trigger] line@[c] == before[c],
                decreases 8 - col,
            {
                line[col] = s_box[line[col] as usize];
                col += 1;
            }
            assert(line@ =~= target[row as int]);
            mat.set_row(row, line);
            row += 1;
        }
        assert(mat@ =~= target);
    }

    /// Puts every byte of row `r` back through the inverse box of round `round`, row `r`.
    fn sub_bytes_inv(&self, round: usize, mat: &mut Matrix)
        requires
            self.wf(),
            round < self.rounds,
            is_matrix(old(mat)@, self.rows as int),
        ensures
            final(mat)@ == substitute_inv(old(mat)@, schedule(self.master@, round as nat)),
            is_matrix(final(mat)@, self.rows as int),
    {
        let ghost m = mat@;
        let ghost target = substitute_inv(m, schedule(self.master@, round as nat));
        let ghost rk = schedule(self.master@, round as nat);
        let mut row: usize = 0;
        while row < self.rows
            invariant
                self.wf(),
                round < self.rounds,
                row <= self.rows,
                is_matrix(m, self.rows as int),
                rk == schedule(self.master@, round as nat),
                target.len() == self.rows,
                forall|r: int| 0 <= r < self.rows ==> #[trigger] target[r] == Seq::new(8, |c: int| unbox(round_box(row_mask(rk, r)), m[r][c])),
                mat@.len() == self.rows,
                forall|r: int| 0 <= r < row ==> #[trigger] mat@[r] == target[r],
                forall|r: int| row <= r < self.rows ==> #[trigger] mat@[r] == m[r],
            decreases self.rows - row,
        {
            let s_inv = &self.s_inves[round][row];
            let ghost s_box = self.s_boxes@[round as int]@[row as int]@;
            assert(s_box == round_box(row_mask(schedule(self.master@, round as nat), row as int)));
            assert(inverse_pair(s_box, s_inv@));
            assert(mat@[row as int] == m[row as int]);
            let mut line = mat.get_row(row);
            let ghost before = line@;
            let mut col: usize = 0;
            while col < 8
                invariant
                    col <= 8,
                    before.len() == 8,
                    inverse_pair(s_box, s_inv@),
                    forall|c: int| 0 <= c < col ==> #[trigger] line@[c] == unbox(s_box, before[c]),
                    forall|c: int| col <= c < 8 ==> #[trigger] line@[c] == before[c],
                decreases 8 - col,
            {
                proof {
                    lemma_unbox_by_table(s_box, s_inv@, line@[col as int]);
                }
                line[col] = s_inv[line[col] as usize];
                col += 1;
            }
            assert(line@ =~= target[row as int]);
            mat.set_row(row, line);
            row += 1;
        }
        assert(mat@ =~= target);
    }

    /// Applies the confusion function to every row, keyed by the round key.
    fn apply_round(&self, round: usize, mat: &mut Matrix)
        requires
            self.wf(),
            round < self.rounds,
            is_matrix(old(mat)@, self.rows as int),
        ensures
            final(mat)@ == confuse(old(mat)@, schedule(self.master@, round as nat)),
            is_matrix(final(mat)@, self.rows as int),
    {
        let ghost m = mat@;
        let ghost target = confuse(m, schedule(self.master@, round as nat));
        let ghost rk = schedule(self.master@, round as nat);
        proof {
            lemma_schedule_len(self.master@, round as nat);
        }
        let mut row: usize = 0;
        while row < self.rows
            invariant
                self.wf(),
                round < self.rounds,
                row <= self.rows,
                is_matrix(m, self.rows as int),
                rk == schedule(self.master@, round as nat),
                rk.len() == 8 * self.rows,
                target.len() == self.rows,
                forall|r: int| 0 <= r < self.rows ==> #[trigger] target[r] == func_f_spec(m[r], row_key(rk, r)),
                mat@.len() == self.rows,
                forall|r: int| 0 <= r < row ==> #[trigger] mat@[r] == target[r],
                forall|r: int| row <= r < self.rows ==> #[trigger] mat@[r] == m[r],
                forall|r: int| 0 <= r < self.rows ==> #[trigger] target[r].len() == 8,
            decreases self.rows - row,
        {
            assert(self.round_keys@[round as int]@ == schedule(self.master@, round as nat));
            let seg = row_segment(self.round_keys[round].as_slice(), row);
            assert(mat@[row as int] == m[row as int]);
            let mut line = mat.get_row(row);
            func_f(&mut line, seg);
            assert(line@ == target[row as int]);
            mat.set_row(row, line);
            row += 1;
        }
        assert(mat@ =~= target);
    }

    /// Applies the inverse confusion function to every row, keyed by the round key.
    fn apply_round_inv(&self, round: usize, mat: &mut Matrix)
        requires
            self.wf(),
            round < self.rounds,
            is_matrix(old(mat)@, self.rows as int),
        ensures
            final(mat)@ == confuse_inv(old(mat)@, schedule(self.master@, round as nat)),
            is_matrix(final(mat)@, self.rows as int),
    {
        let ghost m = mat@;
        let ghost target = confuse_inv(m, schedule(self.master@, round as nat));
        let ghost rk = schedule(self.master@, round as nat);
        proof {
            lemma_schedule_len(self.master@, round as nat);
        }
        let mut row: usize = 0;
        while row < self.rows
            invariant
                self.wf(),
                round < self.rounds,
                row <= self.rows,
                is_matrix(m, self.rows as int),
                rk == schedule(self.master@, round as nat),
                rk.len() == 8 * self.rows,
                target.len() == self.rows,
                forall|r: int| 0 <= r < self.rows ==> #[trigger] target[r] == func_f_inv_spec(m[r], row_key(rk, r)),
                mat@.len() == self.rows,
                forall|r: int| 0 <= r < row ==> #[trigger] mat@[r] == target[r],
                forall|r: int| row <= r < self.rows ==> #[trigger] mat@[r] == m[r],
                forall|r: int| 0 <= r < self.rows ==> #[trigger] target[r].len() == 8,
            decreases self.rows - row,
        {
            assert(self.round_keys@[round as int]@ == schedule(self.master@, round as nat));
            let seg = row_segment(self.round_keys[round].as_slice(), row);
            assert(mat@[row as int] == m[row as int]);
            let mut line = mat.get_row(row);
            func_f_inv(&mut line, seg);
            assert(line@ == target[row as int]);
            mat.set_row(row, line);
            row += 1;
        }
        assert(mat@ =~= target);
    }

    /// Encrypts one block of `8 * rows` bytes.
    pub fn encrypt(&self, block: &[u8]) -> (r: Vec<u8>)
        requires
            self.wf(),
            block@.len() == 8 * self.rows(),
        ensures
            r@ == encrypt_block(self.master(), block@, self.rows(), self.rounds()),
            r@.len() == 8 * self.rows(),
    {
        let ghost m0 = to_matrix(block@, self.rows as int);
        let mut mat = Matrix::new(block, self.rows);
        let mut round: usize = 0;
        while round < self.rounds
            invariant
                self.wf(),
                round <= self.rounds,
                m0 == to_matrix(block@, self.rows as int),
                mat@ == encrypt_rounds(m0, self.master@, round as nat),
                is_matrix(mat@, self.rows as int),
            decreases self.rounds - round,
        {
            mat.shift_columns();
            self.sub_bytes(round, &mut mat);
            self.apply_round(round, &mut mat);
            round += 1;
        }
        mat.dump()
    }

    /// Decrypts one block of `8 * rows` bytes.
    pub fn decrypt(&self, block: &[u8]) -> (r: Vec<u8>)
        requires
            self.wf(),
            block@.len() == 8 * self.rows(),
        ensures
            r@ == decrypt_block(self.master(), block@, self.rows(), self.rounds()),
            r@.len() == 8 * self.rows(),
    {
        let ghost goal = decrypt_rounds(to_matrix(block@, self.rows as int), self.master@, self.rounds as nat);
        let mut mat = Matrix::new(block, self.rows);
        let mut round: usize = self.rounds;
        while round > 0
            invariant
                self.wf(),
                round <= self.rounds,
                decrypt_rounds(mat@, self.master@, round as nat) == goal,
                is_matrix(mat@, self.rows as int),
            decreases round,
        {
            round -= 1;
            self.apply_round_inv(round, &mut mat);
            self.sub_bytes_inv(round, &mut mat);
            mat.shift_columns_inv();
        }
        mat.dump()
    }
}

/// Encryption depends on the master key, the shape and the block alone: two
/// ciphers built from the same key encrypt a block alike, however often either
/// has been used before.
pub proof fn lemma_encrypt_deterministic(c1: &NarrowWay, c2: &NarrowWay, block: Seq<u8>)
    requires
        c1.master() == c2.master(),
        c1.rows() == c2.rows(),
        c1.rounds() == c2.rounds(),
    ensures
        encrypt_block(c1.master(), block, c1.rows(), c1.rounds()) == encrypt_block(
            c2.master(),
            block,
            c2.rows(),
            c2.rounds(),
        ),
        decrypt_block(c1.master(), block, c1.rows(), c1.rounds()) == decrypt_block(
            c2.master(),
            block,
            c2.rows(),
            c2.rounds(),
        ),
{
}

/// Copies a vector of exactly `N` bytes into an array.
pub(crate) fn to_block<const N: usize>(v: &Vec<u8>) -> (b: [u8; N])
    requires
        v@.len() == N,
    ensures
        b@ == v@,
{
    let mut b: [u8; N] = [0; N];
    let mut i: usize = 0;
    while i < N
        invariant
            i <= N,
            v@.len() == N,
            b@.len() == N,
            forall|j: int| 0 <= j < i ==> #[trigger] b@[j] == v@[j],
        decreases N - i,
    {
        b[i] = v[i];
        i += 1;
    }
    assert(b@ =~= v@);
    b
}

} // verus!
