//! The diffusion layer: the block seen as a matrix of rows of 8 bytes, and the
//! column rotations that spread each byte across the rows.
use vstd::prelude::*;

verus! {

/// `s` with the entries of `lo..hi` in reverse order.
pub open spec fn reversed_range(s: Seq<u8>, lo: int, hi: int) -> Seq<u8> {
    Seq::new(s.len(), |i: int| if lo <= i < hi { s[lo + hi - 1 - i] } else { s[i] })
}

/// The row that lands in row `r` when a column of `n` rows turns down by `k`.
pub open spec fn down_source(r: int, k: int, n: int) -> int {
    if r >= k {
        r - k
    } else {
        r - k + n
    }
}

/// The row that lands in row `r` when a column of `n` rows turns up by `k`.
pub open spec fn up_source(r: int, k: int, n: int) -> int {
    if r + k < n {
        r + k
    } else {
        r + k - n
    }
}

/// `s` turned cyclically down by `k`: the entry at `i` moves to `(i + k) mod n`.
pub open spec fn rotated_down(s: Seq<u8>, k: int) -> Seq<u8> {
    Seq::new(s.len(), |i: int| s[down_source(i, k, s.len() as int)])
}

/// Reverses the entries of `v` in `lo..hi`.
pub fn reverse_range(v: &mut Vec<u8>, lo: usize, hi: usize)
    requires
        lo <= hi <= old(v)@.len(),
    ensures
        final(v)@ == reversed_range(old(v)@, lo as int, hi as int),
{
    let ghost s = v@;
    let mut a: usize = lo;
    let mut b: usize = hi;
    while a < b && b - a > 1
        invariant
            lo <= a <= b <= hi,
            hi <= s.len(),
            a - lo == hi - b,
            v@.len() == s.len(),
            forall|i: int| lo <= i < a ==> v@[i] == s[lo + hi - 1 - i],
            forall|i: int| b <= i < hi ==> v@[i] == s[lo + hi - 1 - i],
            forall|i: int| a <= i < b ==> v@[i] == s[i],
            forall|i: int| 0 <= i < lo || hi <= i < s.len() ==> v@[i] == s[i],
        decreases b - a,
    {
        let t = v[a];
        let u = v[b - 1];
        v.set(a, u);
        v.set(b - 1, t);
        a += 1;
        b -= 1;
    }
    assert(v@ =~= reversed_range(s, lo as int, hi as int));
}

/// Turns `v` cyclically down by `step` with three reversals.
pub fn rotate_down(v: &mut Vec<u8>, step: usize)
    requires
        step <= old(v)@.len(),
    ensures
        final(v)@ == rotated_down(old(v)@, step as int),
{
    let ghost s = v@;
    let n = v.len();
    reverse_range(v, 0, n - step);
    reverse_range(v, n - step, n);
    reverse_range(v, 0, n);
    assert(v@ =~= rotated_down(s, step as int));
}

/// A flat block of `8 * rows` bytes seen as `rows` rows of 8 bytes.
pub open spec fn to_matrix(b: Seq<u8>, rows: int) -> Seq<Seq<u8>> {
    Seq::new(rows as nat, |r: int| Seq::new(8, |c: int| b[8 * r + c]))
}

/// The rows of `m` laid end to end.
pub open spec fn from_matrix(m: Seq<Seq<u8>>) -> Seq<u8> {
    Seq::new(8 * m.len(), |k: int| m[k / 8][k % 8])
}

/// `m` has `rows` rows of 8 bytes each.
pub open spec fn is_matrix(m: Seq<Seq<u8>>, rows: int) -> bool {
    &&& m.len() == rows
    &&& forall|r: int| 0 <= r < rows ==> #[trigger] m[r].len() == 8
}

/// Column `c` of `m` turned down by `c mod R`, for every column; `R` is the row count.
pub open spec fn shift_columns_spec(m: Seq<Seq<u8>>) -> Seq<Seq<u8>> {
    let n = m.len() as int;
    Seq::new(m.len(), |r: int| Seq::new(8, |c: int| m[down_source(r, c % n, n)][c]))
}

/// Column `c` of `m` turned up by `c mod R`, undoing `shift_columns_spec`.
pub open spec fn shift_columns_inv_spec(m: Seq<Seq<u8>>) -> Seq<Seq<u8>> {
    let n = m.len() as int;
    Seq::new(m.len(), |r: int| Seq::new(8, |c: int| m[up_source(r, c % n, n)][c]))
}

/// `m` with columns `0..upto` turned (down, or up when `up` holds) and the rest as they were.
spec fn columns_turned(m: Seq<Seq<u8>>, upto: int, up: bool) -> Seq<Seq<u8>> {
    let n = m.len() as int;
    Seq::new(
        m.len(),
        |r: int|
            Seq::new(
                8,
                |c: int|
                    if c < upto {
                        m[if up {
                            up_source(r, c % n, n)
                        } else {
                            down_source(r, c % n, n)
                        }][c]
                    } else {
                        m[r][c]
                    },
            ),
    )
}

/// Turning every column down and then up again gives back the matrix.
pub proof fn lemma_shift_columns_round_trip(m: Seq<Seq<u8>>)
    requires
        m.len() >= 1,
        is_matrix(m, m.len() as int),
    ensures
        shift_columns_inv_spec(shift_columns_spec(m)) == m,
{
    let n = m.len() as int;
    let t = shift_columns_spec(m);
    let u = shift_columns_inv_spec(t);
    assert forall|r: int, c: int| 0 <= r < n && 0 <= c < 8 implies #[trigger] u[r][c] == m[r][c] by {
        let k = c % n;
        let a = up_source(r, k, n);
        assert(0 <= a < n);
        assert(down_source(a, k, n) == r);
    }
    assert(u =~~= m);
}

/// `m` with column `col` turned down by `k`.
pub open spec fn column_turned_down(m: Seq<Seq<u8>>, col: int, k: int) -> Seq<Seq<u8>> {
    Seq::new(m.len(), |r: int| m[r].update(col, m[down_source(r, k, m.len() as int)][col]))
}

/// The matrix view of one block: its rows of 8 bytes.
pub struct Matrix {
    rows: Vec<[u8; 8]>,
}

impl View for Matrix {
    type V = Seq<Seq<u8>>;

    closed spec fn view(&self) -> Seq<Seq<u8>> {
        Seq::new(self.rows@.len(), |r: int| self.rows@[r]@)
    }
}

impl Matrix {
    /// Reads a block of `8 * rows` bytes row by row.
    pub fn new(bytes: &[u8], rows: usize) -> (m: Matrix)
        requires
            bytes@.len() == 8 * rows,
        ensures
            m@ == to_matrix(bytes@, rows as int),
            is_matrix(m@, rows as int),
    {
        let mut mat: Vec<[u8; 8]> = Vec::new();
        let total = bytes.len();
        let mut row: usize = 0;
        while row < rows
            invariant
                row <= rows,
                bytes@.len() == 8 * rows,
                total == bytes@.len(),
                mat@.len() == row,
                forall|r: int, c: int| 0 <= r < row && 0 <= c < 8 ==> #[trigger] mat@[r]@[c] == bytes@[8 * r + c],
            decreases rows - row,
        {
            let mut line: [u8; 8] = [0; 8];
            let mut col: usize = 0;
            while col < 8
                invariant
                    col <= 8,
                    row < rows,
                    bytes@.len() == 8 * rows,
                    total == bytes@.len(),
                    forall|c: int| 0 <= c < col ==> #[trigger] line@[c] == bytes@[8 * row + c],
                decreases 8 - col,
            {
                assert(8 * row + col < 8 * rows) by (nonlinear_arith)
                    requires
                        row < rows,
                        col < 8,
                ;
                line[col] = bytes[8 * row + col];
                col += 1;
            }
            mat.push(line);
            row += 1;
        }
        let m = Matrix { rows: mat };
        assert(m@ =~~= to_matrix(bytes@, rows as int));
        m
    }

    /// Writes the rows back out as one flat block.
    pub fn dump(&self) -> (r: Vec<u8>)
        requires
            is_matrix(self@, self@.len() as int),
        ensures
            r@ == from_matrix(self@),
    {
        let mut bytes: Vec<u8> = Vec::new();
        let n = self.rows.len();
        let mut row: usize = 0;
        while row < n
            invariant
                row <= n,
                n == self@.len(),
                is_matrix(self@, n as int),
                bytes@.len() == 8 * row,
                forall|k: int| 0 <= k < 8 * row ==> #[trigger] bytes@[k] == self@[k / 8][k % 8],
            decreases n - row,
        {
            let line = self.rows[row];
            let mut col: usize = 0;
            while col < 8
                invariant
                    col <= 8,
                    row < n,
                    line@ == self@[row as int],
                    bytes@.len() == 8 * row + col,
                    forall|k: int| 0 <= k < 8 * row + col ==> #[trigger] bytes@[k] == self@[k / 8][k % 8],
                decreases 8 - col,
            {
                proof {
                    let k = 8 * row + col;
                    assert(k / 8 == row && k % 8 == col) by (nonlinear_arith)
                        requires
                            k == 8 * row + col,
                            col < 8,
                    ;
                }
                bytes.push(line[col]);
                col += 1;
            }
            row += 1;
        }
        assert(bytes@ =~= from_matrix(self@));
        bytes
    }

    /// Row `r`.
    pub fn get_row(&self, r: usize) -> (line: [u8; 8])
        requires
            r < self@.len(),
        ensures
            line@ == self@[r as int],
    {
        self.rows[r]
    }

    /// Replaces row `r`.
    pub fn set_row(&mut self, r: usize, line: [u8; 8])
        requires
            r < old(self)@.len(),
        ensures
            final(self)@ == old(self)@.update(r as int, line@),
    {
        self.rows.set(r, line);
        assert(self@ =~= old(self)@.update(r as int, line@));
    }

    /// Turns column `col` down by `step` rows, cyclically.
    pub fn shift_down(&mut self, col: usize, step: usize)
        requires
            col < 8,
            step <= old(self)@.len(),
            is_matrix(old(self)@, old(self)@.len() as int),
        ensures
            final(self)@ == column_turned_down(old(self)@, col as int, step as int),
    {
        let ghost m = self@;
        let n = self.rows.len();
        let mut column: Vec<u8> = Vec::new();
        let mut r: usize = 0;
        while r < n
            invariant
                r <= n,
                n == m.len(),
                self@ == m,
                col < 8,
                is_matrix(m, n as int),
                column@.len() == r,
                forall|i: int| 0 <= i < r ==> #[trigger] column@[i] == m[i][col as int],
            decreases n - r,
        {
            let line = self.rows[r];
            column.push(line[col]);
            r += 1;
        }
        let ghost c0 = column@;
        rotate_down(&mut column, step);
        let mut r: usize = 0;
        while r < n
            invariant
                r <= n,
                n == m.len(),
                self@.len() == n,
                col < 8,
                step <= n,
                is_matrix(m, n as int),
                c0.len() == n,
                forall|i: int| 0 <= i < n ==> #[trigger] c0[i] == m[i][col as int],
                column@ == rotated_down(c0, step as int),
                forall|i: int| 0 <= i < r ==> #[trigger] self@[i] == column_turned_down(m, col as int, step as int)[i],
                forall|i: int| r <= i < n ==> #[trigger] self@[i] == m[i],
            decreases n - r,
        {
            let mut line = self.rows[r];
            assert(self@[r as int] == m[r as int]);
            assert(line@ == m[r as int]);
            let v = column[r];
            proof {
                let ds = down_source(r as int, step as int, n as int);
                assert(0 <= ds < n);
                assert(v == c0[ds]);
                assert(v == m[ds][col as int]);
            }
            line[col] = v;
            assert(line@ =~= m[r as int].update(col as int, v));
            self.set_row(r, line);
            assert(self@[r as int] =~= column_turned_down(m, col as int, step as int)[r as int]);
            r += 1;
        }
        assert(self@ =~= column_turned_down(m, col as int, step as int));
    }

    /// Turns each column `c` down by `c mod R` rows.
    pub fn shift_columns(&mut self)
        requires
            old(self)@.len() >= 1,
            is_matrix(old(self)@, old(self)@.len() as int),
        ensures
            final(self)@ == shift_columns_spec(old(self)@),
            is_matrix(final(self)@, old(self)@.len() as int),
    {
        let ghost m = self@;
        let n = self.rows.len();
        assert forall|r: int| 0 <= r < n implies #[trigger] columns_turned(m, 1, false)[r] =~= m[r] by {
            assert(0int % (n as int) == 0);
        }
        assert(self@ =~~= columns_turned(m, 1, false));
        let mut col: usize = 1;
        while col < 8
            invariant
                1 <= col <= 8,
                n == m.len(),
                n >= 1,
                is_matrix(m, n as int),
                self@ == columns_turned(m, col as int, false),
            decreases 8 - col,
        {
            let step = col % n;
            if step != 0 {
                self.shift_down(col, step);
            }
            assert(self@ =~~= columns_turned(m, col + 1, false));
            col += 1;
        }
        assert(self@ =~~= shift_columns_spec(m));
    }

    /// Turns each column `c` up by `c mod R` rows, undoing `shift_columns`.
    pub fn shift_columns_inv(&mut self)
        requires
            old(self)@.len() >= 1,
            is_matrix(old(self)@, old(self)@.len() as int),
        ensures
            final(self)@ == shift_columns_inv_spec(old(self)@),
            is_matrix(final(self)@, old(self)@.len() as int),
    {
        let ghost m = self@;
        let n = self.rows.len();
        assert forall|r: int| 0 <= r < n implies #[trigger] columns_turned(m, 1, true)[r] =~= m[r] by {
            assert(0int % (n as int) == 0);
        }
        assert(self@ =~~= columns_turned(m, 1, true));
        let mut col: usize = 1;
        while col < 8
            invariant
                1 <= col <= 8,
                n == m.len(),
                n >= 1,
                is_matrix(m, n as int),
                self@ == columns_turned(m, col as int, true),
            decreases 8 - col,
        {
            let step = col % n;
            if step != 0 {
                self.shift_down(col, n - step);
            }
            assert(self@ =~~= columns_turned(m, col + 1, true));
            col += 1;
        }
        assert(self@ =~~= shift_columns_inv_spec(m));
    }
}

} // verus!
