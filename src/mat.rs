use vstd::prelude::*;

use crate::element::{cm_dot, cm_entry, cm_term, BlasGemm, Scalar};
use crate::parallel::{par_add, par_scale};

verus! {

/// A dense matrix stored row by row: the cell at row `i`, column `j`
/// is `data[i * cols + j]`.
#[derive(Clone)]
pub struct Mat<T> {
    pub rows: usize,
    pub cols: usize,
    pub data: Vec<T>,
}

impl<T> Mat<T> {
    /// The buffer holds exactly one element per cell.
    pub open spec fn wf(&self) -> bool {
        self.data@.len() == self.rows * self.cols
    }

    /// The cell at row `i`, column `j`.
    pub open spec fn cell(&self, i: int, j: int) -> T {
        self.data@[i * self.cols + j]
    }

    /// Whether `(i, j)` names a cell of the matrix.
    pub open spec fn in_bounds(&self, i: int, j: int) -> bool {
        0 <= i < self.rows && 0 <= j < self.cols
    }

    /// Builds a matrix from a row-major buffer; the buffer must hold
    /// `rows * cols` elements.
    pub fn new(rows: usize, cols: usize, data: Vec<T>) -> (r: Self)
        requires
            data@.len() == rows * cols,
        ensures
            r.wf(),
            r.rows == rows,
            r.cols == cols,
            r.data@ == data@,
    {
        Self::from_vec(rows, cols, data)
    }

    /// Builds a matrix from a row-major buffer; the buffer must hold
    /// `rows * cols` elements.
    pub fn from_vec(rows: usize, cols: usize, data: Vec<T>) -> (r: Self)
        requires
            data@.len() == rows * cols,
        ensures
            r.wf(),
            r.rows == rows,
            r.cols == cols,
            r.data@ == data@,
    {
        Mat { rows, cols, data }
    }

    /// Builds a `rows` by `cols` matrix whose cell `(i, j)` is `f(i, j)`,
    /// calling `f` on the cells in row-major order.
    pub fn from_fn<F: Fn(usize, usize) -> T>(rows: usize, cols: usize, f: F) -> (r: Self)
        requires
            rows * cols <= usize::MAX,
            forall|i: usize, j: usize| i < rows && j < cols ==> f.requires((i, j)),
        ensures
            r.wf(),
            r.rows == rows,
            r.cols == cols,
            forall|i: int, j: int| r.in_bounds(i, j) ==> f.ensures((i as usize, j as usize), #[trigger] r.cell(i, j)),
    {
        let mut data: Vec<T> = Vec::with_capacity(rows * cols);
        let mut i: usize = 0;
        while i < rows
            invariant
                rows * cols <= usize::MAX,
                forall|i: usize, j: usize| i < rows && j < cols ==> f.requires((i, j)),
                0 <= i <= rows,
                data@.len() == i * cols,
                forall|ii: int, jj: int| 0 <= ii < i && 0 <= jj < cols
                    ==> f.ensures((ii as usize, jj as usize), #[trigger] data@[ii * cols + jj]),
            decreases rows - i,
        {
            let mut j: usize = 0;
            while j < cols
                invariant
                    rows * cols <= usize::MAX,
                    forall|i: usize, j: usize| i < rows && j < cols ==> f.requires((i, j)),
                    0 <= i < rows,
                    0 <= j <= cols,
                    data@.len() == i * cols + j,
                    forall|ii: int, jj: int| 0 <= ii < i && 0 <= jj < cols
                        ==> f.ensures((ii as usize, jj as usize), #[trigger] data@[ii * cols + jj]),
                    forall|jj: int| 0 <= jj < j ==> f.ensures((i, jj as usize), #[trigger] data@[i * cols + jj]),
                decreases cols - j,
            {
                let v = f(i, j);
                proof {
                    lemma_cell_index(rows as int, cols as int, i as int, j as int);
                }
                data.push(v);
                proof {
                    assert forall|ii: int, jj: int| 0 <= ii < i && 0 <= jj < cols
                        implies f.ensures((ii as usize, jj as usize), #[trigger] data@[ii * cols + jj]) by {
                        lemma_cell_index(i as int, cols as int, ii, jj);
                    }
                }
                j = j + 1;
            }
            proof {
                assert((i + 1) * cols == i * cols + cols) by (nonlinear_arith);
            }
            i = i + 1;
        }
        Self::from_vec(rows, cols, data)
    }

    /// The element at `(row, col)`, or `None` outside the matrix.
    pub fn get(&self, row: usize, col: usize) -> (r: Option<&T>)
        requires
            self.wf(),
        ensures
            self.in_bounds(row as int, col as int) ==> r == Some(&self.cell(row as int, col as int)),
            !self.in_bounds(row as int, col as int) ==> r is None,
    {
        if row < self.rows && col < self.cols {
            let n: usize = self.data.len();
            proof {
                lemma_cell_index(self.rows as int, self.cols as int, row as int, col as int);
            }
            Some(&self.data[row * self.cols + col])
        } else {
            None
        }
    }
}

impl<T: Scalar> Mat<T> {
    /// The number held at row `i`, column `j`.
    pub open spec fn val(&self, i: int, j: int) -> int {
        T::value(self.cell(i, j))
    }

    /// Both matrices have the same number of rows and of columns.
    pub open spec fn same_shape(&self, rhs: &Mat<T>) -> bool {
        self.rows == rhs.rows && self.cols == rhs.cols
    }

    /// Every cellwise sum of two matrices of one shape can be held by an
    /// element.
    pub open spec fn add_fits(&self, rhs: &Mat<T>) -> bool {
        forall|i: int, j: int| self.in_bounds(i, j) ==> T::fits(#[trigger] self.val(i, j) + rhs.val(i, j))
    }

    /// Every cell times `c` can be held by an element.
    pub open spec fn scale_fits(&self, c: T) -> bool {
        forall|i: int, j: int| self.in_bounds(i, j) ==> T::fits(#[trigger] self.val(i, j) * T::value(c))
    }

    /// The cellwise sum of two matrices of one shape: `r` has that shape and
    /// `r[i][j] = self[i][j] + rhs[i][j]`.
    pub open spec fn is_sum_of(r: &Mat<T>, a: &Mat<T>, b: &Mat<T>) -> bool {
        &&& r.wf()
        &&& r.rows == a.rows && r.cols == a.cols
        &&& forall|i: int, j: int| a.in_bounds(i, j) ==> #[trigger] r.val(i, j) == a.val(i, j) + b.val(i, j)
    }

    /// The `q`-th term of row `i` of `a` times column `j` of `b`.
    pub open spec fn term(a: &Mat<T>, b: &Mat<T>, i: int, j: int, q: int) -> int {
        a.val(i, q) * b.val(q, j)
    }

    /// The sum of the first `p` terms of row `i` of `a` times column `j` of
    /// `b`, added from the left.
    pub open spec fn dot_upto(a: &Mat<T>, b: &Mat<T>, i: int, j: int, p: int) -> int
        decreases p,
    {
        if p <= 0 {
            0
        } else {
            Self::dot_upto(a, b, i, j, p - 1) + Self::term(a, b, i, j, p - 1)
        }
    }

    /// Every term and every partial sum of the product `a * b` can be held
    /// by an element.
    pub open spec fn mul_fits(a: &Mat<T>, b: &Mat<T>) -> bool {
        &&& forall|i: int, j: int, q: int| 0 <= i < a.rows && 0 <= j < b.cols && 0 <= q < a.cols
            ==> T::fits(#[trigger] Self::term(a, b, i, j, q))
        &&& forall|i: int, j: int, p: int| 0 <= i < a.rows && 0 <= j < b.cols && 0 <= p <= a.cols
            ==> T::fits(#[trigger] Self::dot_upto(a, b, i, j, p))
    }

    /// `r` is the matrix product `a * b`: it has `a.rows` rows and `b.cols`
    /// columns, and `r[i][j] = sum over q of a[i][q] * b[q][j]`.
    pub open spec fn is_product_of(r: &Mat<T>, a: &Mat<T>, b: &Mat<T>) -> bool {
        &&& r.wf()
        &&& r.rows == a.rows && r.cols == b.cols
        &&& forall|i: int, j: int| r.in_bounds(i, j) ==> #[trigger] r.val(i, j) == Self::dot_upto(a, b, i, j, a.cols as int)
    }

    /// The restricted dot product is defined: a one-row matrix against a
    /// one-column matrix of matching length.
    pub open spec fn dot_defined(a: &Mat<T>, b: &Mat<T>) -> bool {
        a.rows == 1 && b.cols == 1 && a.cols == b.rows
    }

    /// Cells `0..j` of row `i`, each rendered and followed by a space.
    pub open spec fn row_text(&self, i: int, j: int, precision: nat) -> Seq<char>
        decreases j,
    {
        if j <= 0 {
            Seq::empty()
        } else {
            self.row_text(i, j - 1, precision) + T::text(self.cell(i, j - 1), precision) + seq![' ']
        }
    }

    /// Rows `0..i`, each on a line of its own.
    pub open spec fn grid_text(&self, i: int, precision: nat) -> Seq<char>
        decreases i,
    {
        if i <= 0 {
            Seq::empty()
        } else {
            self.grid_text(i - 1, precision) + self.row_text(i - 1, self.cols as int, precision) + seq!['\n']
        }
    }

    /// Cells `0..j` of row `i`, rendered and separated by `", "`.
    pub open spec fn list_row_text(&self, i: int, j: int, precision: nat) -> Seq<char>
        decreases j,
    {
        if j <= 0 {
            Seq::empty()
        } else if j == 1 {
            T::text(self.cell(i, 0), precision)
        } else {
            self.list_row_text(i, j - 1, precision) + seq![',', ' '] + T::text(self.cell(i, j - 1), precision)
        }
    }

    /// An opening `[` line, then rows `0..i`, each as `  [a, b],` on a
    /// line of its own.
    pub open spec fn list_text(&self, i: int, precision: nat) -> Seq<char>
        decreases i,
    {
        if i <= 0 {
            seq!['[', '\n']
        } else {
            self.list_text(i - 1, precision) + seq![' ', ' ', '['] + self.list_row_text(i - 1, self.cols as int, precision)
                + seq![']', ',', '\n']
        }
    }

    /// `r` is `a` with every cell multiplied by `c`.
    pub open spec fn is_scaled_of(r: &Mat<T>, a: &Mat<T>, c: T) -> bool {
        &&& r.wf()
        &&& r.rows == a.rows && r.cols == a.cols
        &&& forall|i: int, j: int| a.in_bounds(i, j) ==> #[trigger] r.val(i, j) == a.val(i, j) * T::value(c)
    }
}

impl<T: Scalar> Mat<T> {
    /// Matrix product by the reference triple loop: every cell is the inner
    /// product of a row of `self` and a column of `rhs`, summed from the
    /// left. `self.cols` must equal `rhs.rows`.
    pub fn mul_naive(&self, rhs: &Mat<T>) -> (r: Mat<T>)
        requires
            self.wf(),
            rhs.wf(),
            self.cols == rhs.rows,
            Self::mul_fits(self, rhs),
            self.rows * rhs.cols <= usize::MAX,
        ensures
            Self::is_product_of(&r, self, rhs),
    {
        let m = self.rows;
        let n = rhs.cols;
        let k = self.cols;
        let a_len: usize = self.data.len();
        let b_len: usize = rhs.data.len();
        let mut data: Vec<T> = Vec::new();
        let mut i: usize = 0;
        while i < m
            invariant
                self.wf(),
                rhs.wf(),
                self.cols == rhs.rows,
                Self::mul_fits(self, rhs),
                m == self.rows, n == rhs.cols, k == self.cols,
                m * n <= usize::MAX,
                a_len == self.data@.len(),
                b_len == rhs.data@.len(),
                0 <= i <= m,
                data@.len() == i * n,
                forall|ii: int, jj: int| 0 <= ii < i && 0 <= jj < n
                    ==> T::value(#[trigger] data@[ii * n + jj]) == Self::dot_upto(self, rhs, ii, jj, k as int),
            decreases m - i,
        {
            let mut j: usize = 0;
            while j < n
                invariant
                    self.wf(),
                    rhs.wf(),
                    self.cols == rhs.rows,
                    Self::mul_fits(self, rhs),
                    m == self.rows, n == rhs.cols, k == self.cols,
                    m * n <= usize::MAX,
                    a_len == self.data@.len(),
                    b_len == rhs.data@.len(),
                    0 <= i < m,
                    0 <= j <= n,
                    data@.len() == i * n + j,
                    forall|ii: int, jj: int| 0 <= ii < i && 0 <= jj < n
                        ==> T::value(#[trigger] data@[ii * n + jj]) == Self::dot_upto(self, rhs, ii, jj, k as int),
                    forall|jj: int| 0 <= jj < j
                        ==> T::value(#[trigger] data@[i * n + jj]) == Self::dot_upto(self, rhs, i as int, jj, k as int),
                decreases n - j,
            {
                let mut acc = T::zero();
                let mut p: usize = 0;
                while p < k
                    invariant
                        self.wf(),
                        rhs.wf(),
                        self.cols == rhs.rows,
                        Self::mul_fits(self, rhs),
                        m == self.rows, n == rhs.cols, k == self.cols,
                        a_len == self.data@.len(),
                        b_len == rhs.data@.len(),
                        0 <= i < m,
                        0 <= j < n,
                        0 <= p <= k,
                        T::value(acc) == Self::dot_upto(self, rhs, i as int, j as int, p as int),
                    decreases k - p,
                {
                    proof {
                        lemma_cell_index(m as int, k as int, i as int, p as int);
                        lemma_cell_index(k as int, n as int, p as int, j as int);
                        assert(T::fits(Self::term(self, rhs, i as int, j as int, p as int)));
                        assert(T::fits(Self::dot_upto(self, rhs, i as int, j as int, p + 1)));
                    }
                    let x = self.data[i * k + p];
                    let y = rhs.data[p * n + j];
                    let t = T::mul_elem(x, y);
                    acc = T::add_elem(acc, t);
                    p = p + 1;
                }
                proof {
                    lemma_cell_index(m as int, n as int, i as int, j as int);
                }
                data.push(acc);
                proof {
                    assert forall|ii: int, jj: int| 0 <= ii < i && 0 <= jj < n
                        implies T::value(#[trigger] data@[ii * n + jj]) == Self::dot_upto(self, rhs, ii, jj, k as int) by {
                        lemma_cell_index(i as int, n as int, ii, jj);
                    }
                }
                j = j + 1;
            }
            proof {
                assert((i + 1) * n == i * n + n) by (nonlinear_arith);
            }
            i = i + 1;
        }
        let r = Mat::new(m, n, data);
        r
    }

    /// The inner product of a one-row matrix with a one-column matrix of the
    /// same length; `None` for any other pair of shapes.
    pub fn dot(&self, rhs: &Mat<T>) -> (r: Option<T>)
        requires
            self.wf(),
            rhs.wf(),
            Self::dot_defined(self, rhs) ==> Self::mul_fits(self, rhs),
        ensures
            r is Some <==> Self::dot_defined(self, rhs),
            r matches Some(v) ==> T::value(v) == Self::dot_upto(self, rhs, 0, 0, self.cols as int),
    {
        if self.rows != 1 || rhs.cols != 1 || self.cols != rhs.rows {
            return None;
        }
        let k = self.cols;
        let mut acc = T::zero();
        let mut p: usize = 0;
        while p < k
            invariant
                self.wf(),
                rhs.wf(),
                Self::dot_defined(self, rhs),
                Self::mul_fits(self, rhs),
                k == self.cols,
                0 <= p <= k,
                T::value(acc) == Self::dot_upto(self, rhs, 0, 0, p as int),
            decreases k - p,
        {
            proof {
                assert(0 * (k as int) + p == p);
                assert((p as int) * 1 + 0 == p);
                assert(T::fits(Self::term(self, rhs, 0, 0, p as int)));
                assert(T::fits(Self::dot_upto(self, rhs, 0, 0, p + 1)));
            }
            let t = T::mul_elem(self.data[p], rhs.data[p]);
            acc = T::add_elem(acc, t);
            p = p + 1;
        }
        Some(acc)
    }
}

impl<T: Scalar> Mat<T> {
    /// Renders the matrix one row per line, each cell shown with
    /// `precision` fractional digits and followed by a space.
    pub fn render(&self, precision: usize) -> (r: String)
        requires
            self.wf(),
        ensures
            r@ == self.grid_text(self.rows as int, precision as nat),
    {
        let mut out = String::new();
        let len: usize = self.data.len();
        let mut i: usize = 0;
        while i < self.rows
            invariant
                self.wf(),
                len == self.data@.len(),
                0 <= i <= self.rows,
                out@ == self.grid_text(i as int, precision as nat),
            decreases self.rows - i,
        {
            let mut j: usize = 0;
            let ghost before = out@;
            while j < self.cols
                invariant
                    self.wf(),
                    len == self.data@.len(),
                    0 <= i < self.rows,
                    0 <= j <= self.cols,
                    before == self.grid_text(i as int, precision as nat),
                    out@ == before + self.row_text(i as int, j as int, precision as nat),
                decreases self.cols - j,
            {
                proof {
                    lemma_cell_index(self.rows as int, self.cols as int, i as int, j as int);
                }
                let cell = T::to_text(self.data[i * self.cols + j], precision);
                out.append(cell.as_str());
                out.append(" ");
                proof {
                    reveal_strlit(" ");
                    assert(out@ =~= before + self.row_text(i as int, j + 1, precision as nat));
                }
                j = j + 1;
            }
            out.append("\n");
            proof {
                reveal_strlit("\n");
                assert(out@ =~= self.grid_text(i + 1, precision as nat));
            }
            i = i + 1;
        }
        out
    }

    /// Renders the matrix as a bracketed list of rows: a `[` line, one
    /// `  [a, b],` line per row with cells shown with `precision`
    /// fractional digits, and a closing `]`.
    pub fn render_nested(&self, precision: usize) -> (r: String)
        requires
            self.wf(),
        ensures
            r@ == self.list_text(self.rows as int, precision as nat) + seq![']'],
    {
        let mut out = String::new();
        out.append("[\n");
        proof {
            reveal_strlit("[\n");
            assert(out@ =~= self.list_text(0, precision as nat));
        }
        let len: usize = self.data.len();
        let mut i: usize = 0;
        while i < self.rows
            invariant
                self.wf(),
                len == self.data@.len(),
                0 <= i <= self.rows,
                out@ == self.list_text(i as int, precision as nat),
            decreases self.rows - i,
        {
            out.append("  [");
            let ghost before = out@;
            proof {
                reveal_strlit("  [");
                assert(before =~= self.list_text(i as int, precision as nat) + seq![' ', ' ', '[']);
                assert(out@ =~= before + self.list_row_text(i as int, 0, precision as nat));
            }
            let mut j: usize = 0;
            while j < self.cols
                invariant
                    self.wf(),
                    len == self.data@.len(),
                    0 <= i < self.rows,
                    0 <= j <= self.cols,
                    out@ == before + self.list_row_text(i as int, j as int, precision as nat),
                decreases self.cols - j,
            {
                if j > 0 {
                    out.append(", ");
                    proof {
                        reveal_strlit(", ");
                    }
                }
                proof {
                    lemma_cell_index(self.rows as int, self.cols as int, i as int, j as int);
                }
                let cell = T::to_text(self.data[i * self.cols + j], precision);
                out.append(cell.as_str());
                proof {
                    assert(out@ =~= before + self.list_row_text(i as int, j + 1, precision as nat));
                }
                j = j + 1;
            }
            out.append("],\n");
            proof {
                reveal_strlit("],\n");
                assert(out@ =~= self.list_text(i + 1, precision as nat));
            }
            i = i + 1;
        }
        out.append("]");
        proof {
            reveal_strlit("]");
        }
        out
    }
}

impl<T: BlasGemm> Mat<T> {
    /// Matrix product by the general matrix product of the element type.
    /// The row-major operands are handed over as the column-major
    /// transposes `rhs^T` and `self^T`, whose product is the column-major
    /// transpose of `self * rhs`, that is `self * rhs` row by row.
    /// `self.cols` must equal `rhs.rows`, and each dimension must fit the
    /// 32-bit sizes of the general product.
    pub fn mul(&self, rhs: &Mat<T>) -> (r: Mat<T>)
        requires
            self.wf(),
            rhs.wf(),
            self.cols == rhs.rows,
            Self::mul_fits(self, rhs),
            self.rows * rhs.cols <= usize::MAX,
            self.rows <= i32::MAX,
            self.cols <= i32::MAX,
            rhs.cols <= i32::MAX,
        ensures
            Self::is_product_of(&r, self, rhs),
    {
        let m = self.rows;
        let n = rhs.cols;
        let k = self.cols;
        let mut result = vec![T::zero(); m * n];
        proof {
            assert(n * k == k * n && m * k == k * m && n * m == m * n) by (nonlinear_arith);
            assert forall|jj: int, ii: int, p: int| 0 <= jj < n && 0 <= ii < m && 0 <= p < k
                implies T::fits(#[trigger] cm_term(rhs.data@, n as int, self.data@, k as int, jj, ii, p)) by {
                lemma_transposed_term(self, rhs, ii, jj, p);
                assert(T::fits(Self::term(self, rhs, ii, jj, p)));
            }
            assert forall|jj: int, ii: int, p: int| 0 <= jj < n && 0 <= ii < m && 0 <= p <= k
                implies T::fits(#[trigger] cm_dot(rhs.data@, n as int, self.data@, k as int, jj, ii, p)) by {
                lemma_transposed_dot(self, rhs, ii, jj, p);
                assert(T::fits(Self::dot_upto(self, rhs, ii, jj, p)));
            }
        }
        T::gemm(n as i32, m as i32, k as i32, rhs.data.as_slice(), n as i32, self.data.as_slice(), k as i32, result.as_mut_slice(), n as i32);
        let r = Mat::new(m, n, result);
        proof {
            assert forall|i: int, j: int| r.in_bounds(i, j)
                implies #[trigger] r.val(i, j) == Self::dot_upto(self, rhs, i, j, k as int) by {
                lemma_transposed_dot(self, rhs, i, j, k as int);
                assert(T::value(cm_entry(r.data@, n as int, j, i)) == cm_dot(rhs.data@, n as int, self.data@, k as int, j, i, k as int));
            }
        }
        r
    }
}

impl<T: Scalar + Send + Sync> Mat<T> {
    /// Cellwise sum, computed by data-parallel workers; both matrices must
    /// have the same shape.
    pub fn add(&self, rhs: &Mat<T>) -> (r: Mat<T>)
        requires
            self.wf(),
            rhs.wf(),
            self.same_shape(rhs),
            self.add_fits(rhs),
        ensures
            Self::is_sum_of(&r, self, rhs),
    {
        proof {
            assert forall|t: int| 0 <= t < self.data@.len()
                implies T::fits(T::value(#[trigger] self.data@[t]) + T::value(rhs.data@[t])) by {
                let (i, j) = lemma_cell_of_index(self.rows as int, self.cols as int, t);
                assert(self.in_bounds(i, j));
                assert(T::fits(self.val(i, j) + rhs.val(i, j)));
            }
        }
        let data = par_add(&self.data, &rhs.data);
        let r = Mat::new(self.rows, self.cols, data);
        proof {
            assert forall|i: int, j: int| self.in_bounds(i, j)
                implies #[trigger] r.val(i, j) == self.val(i, j) + rhs.val(i, j) by {
                lemma_cell_index(self.rows as int, self.cols as int, i, j);
            }
        }
        r
    }

    /// Cellwise sum computed by one sequential pass; both matrices must have
    /// the same shape.
    pub fn add_seq(&self, rhs: &Mat<T>) -> (r: Mat<T>)
        requires
            self.wf(),
            rhs.wf(),
            self.same_shape(rhs),
            self.add_fits(rhs),
        ensures
            Self::is_sum_of(&r, self, rhs),
    {
        let n: usize = self.data.len();
        let mut data: Vec<T> = Vec::with_capacity(n);
        let mut t: usize = 0;
        while t < n
            invariant
                self.wf(),
                rhs.wf(),
                self.same_shape(rhs),
                self.add_fits(rhs),
                n == self.data@.len(),
                0 <= t <= n,
                data@.len() == t,
                forall|u: int| 0 <= u < t ==> T::value(#[trigger] data@[u]) == T::value(self.data@[u]) + T::value(rhs.data@[u]),
            decreases n - t,
        {
            proof {
                let (i, j) = lemma_cell_of_index(self.rows as int, self.cols as int, t as int);
                assert(self.in_bounds(i, j));
                assert(T::fits(self.val(i, j) + rhs.val(i, j)));
            }
            data.push(T::add_elem(self.data[t], rhs.data[t]));
            t = t + 1;
        }
        let r = Mat::new(self.rows, self.cols, data);
        proof {
            assert forall|i: int, j: int| self.in_bounds(i, j)
                implies #[trigger] r.val(i, j) == self.val(i, j) + rhs.val(i, j) by {
                lemma_cell_index(self.rows as int, self.cols as int, i, j);
            }
        }
        r
    }

    /// The matrix times the scalar `c` on the right, computed by
    /// data-parallel workers.
    pub fn mul_scalar(&self, c: T) -> (r: Mat<T>)
        requires
            self.wf(),
            self.scale_fits(c),
        ensures
            Self::is_scaled_of(&r, self, c),
    {
        proof {
            assert forall|t: int| 0 <= t < self.data@.len()
                implies T::fits(T::value(#[trigger] self.data@[t]) * T::value(c)) by {
                let (i, j) = lemma_cell_of_index(self.rows as int, self.cols as int, t);
                assert(self.in_bounds(i, j));
                assert(T::fits(self.val(i, j) * T::value(c)));
            }
        }
        let data = par_scale(&self.data, c);
        let r = Mat::new(self.rows, self.cols, data);
        proof {
            assert forall|i: int, j: int| self.in_bounds(i, j)
                implies #[trigger] r.val(i, j) == self.val(i, j) * T::value(c) by {
                lemma_cell_index(self.rows as int, self.cols as int, i, j);
            }
        }
        r
    }

    /// The scalar `c` times the matrix `m`, the scalar written on the left.
    pub fn scalar_mul(c: T, m: &Mat<T>) -> (r: Mat<T>)
        requires
            m.wf(),
            m.scale_fits(c),
        ensures
            Self::is_scaled_of(&r, m, c),
            forall|i: int, j: int| m.in_bounds(i, j) ==> #[trigger] r.val(i, j) == T::value(c) * m.val(i, j),
    {
        let r = m.mul_scalar(c);
        proof {
            assert forall|i: int, j: int| m.in_bounds(i, j)
                implies #[trigger] r.val(i, j) == T::value(c) * m.val(i, j) by {
                vstd::arithmetic::mul::lemma_mul_is_commutative(T::value(c), m.val(i, j));
            }
        }
        r
    }
}

/// A cell index of a `rows` by `cols` matrix lies inside its buffer.
pub proof fn lemma_cell_index(rows: int, cols: int, i: int, j: int)
    requires
        0 <= i < rows,
        0 <= j < cols,
    ensures
        0 <= i * cols + j < rows * cols,
{
    assert(0 <= i * cols + j < rows * cols) by (nonlinear_arith)
        requires 0 <= i < rows, 0 <= j < cols;
}

/// A term of the column-major product `b^T * a^T` is the matching term of
/// the row-major product `a * b`.
pub proof fn lemma_transposed_term<T: Scalar>(a: &Mat<T>, b: &Mat<T>, i: int, j: int, p: int)
    ensures
        cm_term(b.data@, b.cols as int, a.data@, a.cols as int, j, i, p) == Mat::<T>::term(a, b, i, j, p),
{
    assert(j + p * b.cols == p * b.cols + j);
    assert(p + i * a.cols == i * a.cols + p);
    vstd::arithmetic::mul::lemma_mul_is_commutative(a.val(i, p), b.val(p, j));
}

/// A partial inner product of the column-major product `b^T * a^T` is the
/// matching partial inner product of the row-major product `a * b`.
pub proof fn lemma_transposed_dot<T: Scalar>(a: &Mat<T>, b: &Mat<T>, i: int, j: int, p: int)
    ensures
        cm_dot(b.data@, b.cols as int, a.data@, a.cols as int, j, i, p) == Mat::<T>::dot_upto(a, b, i, j, p),
    decreases p,
{
    if p > 0 {
        lemma_transposed_dot(a, b, i, j, p - 1);
        lemma_transposed_term(a, b, i, j, p - 1);
    }
}

/// Every index of a `rows` by `cols` buffer names one cell.
pub proof fn lemma_cell_of_index(rows: int, cols: int, t: int) -> (ij: (int, int))
    requires
        0 <= rows,
        0 <= cols,
        0 <= t < rows * cols,
    ensures
        0 <= ij.0 < rows,
        0 <= ij.1 < cols,
        t == ij.0 * cols + ij.1,
{
    assert(cols > 0) by (nonlinear_arith)
        requires 0 <= t < rows * cols, 0 <= rows, 0 <= cols;
    let i = t / cols;
    let j = t % cols;
    vstd::arithmetic::div_mod::lemma_fundamental_div_mod(t, cols);
    assert(t == i * cols + j) by (nonlinear_arith)
        requires t == cols * i + j;
    assert(0 <= i < rows) by (nonlinear_arith)
        requires t == i * cols + j, 0 <= j < cols, 0 <= t < rows * cols, cols > 0;
    (i, j)
}

} // verus!
