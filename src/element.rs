use vstd::prelude::*;

verus! {

/// The cell at row `i`, column `j` of a column-major buffer with leading
/// dimension `ld`.
pub open spec fn cm_entry<T>(s: Seq<T>, ld: int, i: int, j: int) -> T {
    s[i + j * ld]
}

/// The `p`-th term of the inner product of row `i` of the column-major `a`
/// with column `j` of the column-major `b`.
pub open spec fn cm_term<T: Scalar>(a: Seq<T>, lda: int, b: Seq<T>, ldb: int, i: int, j: int, p: int) -> int {
    T::value(cm_entry(a, lda, i, p)) * T::value(cm_entry(b, ldb, p, j))
}

/// The sum of the first `p` terms of that inner product.
pub open spec fn cm_dot<T: Scalar>(a: Seq<T>, lda: int, b: Seq<T>, ldb: int, i: int, j: int, p: int) -> int
    decreases p,
{
    if p <= 0 {
        0
    } else {
        cm_dot(a, lda, b, ldb, i, j, p - 1) + cm_term(a, lda, b, ldb, i, j, p - 1)
    }
}

/// The column-major operands of a general product `C := A * B` with
/// `A` of `m` by `k` and `B` of `k` by `n` lie inside their buffers.
pub open spec fn gemm_shape_ok(
    m: int, n: int, k: int,
    a_len: int, lda: int,
    b_len: int, ldb: int,
    c_len: int, ldc: int,
) -> bool {
    &&& 0 <= m && 0 <= n && 0 <= k
    &&& m <= lda && k <= ldb && m <= ldc
    &&& lda * k <= a_len
    &&& ldb * n <= b_len
    &&& ldc * n <= c_len
}

/// Every product term and every partial sum of the product can be held by
/// an element.
pub open spec fn gemm_fits<T: Scalar>(m: int, n: int, k: int, a: Seq<T>, lda: int, b: Seq<T>, ldb: int) -> bool {
    &&& forall|i: int, j: int, p: int| 0 <= i < m && 0 <= j < n && 0 <= p < k
        ==> T::fits(#[trigger] cm_term(a, lda, b, ldb, i, j, p))
    &&& forall|i: int, j: int, p: int| 0 <= i < m && 0 <= j < n && 0 <= p <= k
        ==> T::fits(#[trigger] cm_dot(a, lda, b, ldb, i, j, p))
}

/// A matrix element: a number with exact addition and multiplication while
/// the result stays representable.
pub trait Scalar: Sized + Copy {
    /// The number that an element stands for.
    spec fn value(x: Self) -> int;

    /// Whether the number `v` can be held by an element.
    spec fn fits(v: int) -> bool;

    /// The text of an element shown with `precision` fractional digits.
    spec fn text(x: Self, precision: nat) -> Seq<char>;

    /// The element standing for zero.
    fn zero() -> (r: Self)
        ensures
            Self::value(r) == 0,
    ;

    /// Exact sum of two elements.
    fn add_elem(x: Self, y: Self) -> (r: Self)
        requires
            Self::fits(Self::value(x) + Self::value(y)),
        ensures
            Self::value(r) == Self::value(x) + Self::value(y),
    ;

    /// Exact product of two elements.
    fn mul_elem(x: Self, y: Self) -> (r: Self)
        requires
            Self::fits(Self::value(x) * Self::value(y)),
        ensures
            Self::value(r) == Self::value(x) * Self::value(y),
    ;

    /// Renders an element with `precision` fractional digits.
    fn to_text(x: Self, precision: usize) -> (r: String)
        ensures
            r@ == Self::text(x, precision as nat),
    ;
}

/// Elements with a general matrix product on column-major buffers.
pub trait BlasGemm: Scalar {
    /// `C := A * B` on column-major buffers: `A` is `m` by `k` with leading
    /// dimension `lda`, `B` is `k` by `n` with leading dimension `ldb`, and
    /// the `m` by `n` block of `C` with leading dimension `ldc` is
    /// overwritten with the product; the rest of `C` is kept.
    fn gemm(m: i32, n: i32, k: i32, a: &[Self], lda: i32, b: &[Self], ldb: i32, c: &mut [Self], ldc: i32)
        requires
            gemm_shape_ok(m as int, n as int, k as int, a@.len() as int, lda as int, b@.len() as int, ldb as int, old(c)@.len() as int, ldc as int),
            gemm_fits(m as int, n as int, k as int, a@, lda as int, b@, ldb as int),
        ensures
            final(c)@.len() == old(c)@.len(),
            forall|i: int, j: int| 0 <= i < m && 0 <= j < n
                ==> Self::value(#[trigger] cm_entry(final(c)@, ldc as int, i, j)) == cm_dot(a@, lda as int, b@, ldb as int, i, j, k as int),
            forall|i: int, j: int| m <= i < ldc && 0 <= j < n
                ==> #[trigger] cm_entry(final(c)@, ldc as int, i, j) == cm_entry(old(c)@, ldc as int, i, j),
            forall|t: int| ldc * n <= t < old(c)@.len() ==> #[trigger] final(c)@[t] == old(c)@[t],
    {
        let mu = m as usize;
        let nu = n as usize;
        let ku = k as usize;
        let ldau = lda as usize;
        let ldbu = ldb as usize;
        let ldcu = ldc as usize;
        let ghost c0 = c@;
        let a_len: usize = a.len();
        let b_len: usize = b.len();
        let c_len: usize = c.len();
        let mut j: usize = 0;
        while j < nu
            invariant
                gemm_shape_ok(m as int, n as int, k as int, a@.len() as int, lda as int, b@.len() as int, ldb as int, c0.len() as int, ldc as int),
                gemm_fits(m as int, n as int, k as int, a@, lda as int, b@, ldb as int),
                mu == m, nu == n, ku == k, ldau == lda, ldbu == ldb, ldcu == ldc,
                a_len == a@.len(), b_len == b@.len(), c_len == c0.len(),
                0 <= j <= nu,
                c@.len() == c0.len(),
                forall|ii: int, jj: int| m <= ii < ldc && 0 <= jj < n
                    ==> #[trigger] cm_entry(c@, ldc as int, ii, jj) == cm_entry(c0, ldc as int, ii, jj),
                forall|t: int| ldc * n <= t < c0.len() ==> #[trigger] c@[t] == c0[t],
                forall|i: int, jj: int| 0 <= i < m && 0 <= jj < j
                    ==> Self::value(#[trigger] cm_entry(c@, ldc as int, i, jj)) == cm_dot(a@, lda as int, b@, ldb as int, i, jj, k as int),
            decreases nu - j,
        {
            let mut i: usize = 0;
            while i < mu
                invariant
                    gemm_shape_ok(m as int, n as int, k as int, a@.len() as int, lda as int, b@.len() as int, ldb as int, c0.len() as int, ldc as int),
                    gemm_fits(m as int, n as int, k as int, a@, lda as int, b@, ldb as int),
                    mu == m, nu == n, ku == k, ldau == lda, ldbu == ldb, ldcu == ldc,
                    a_len == a@.len(), b_len == b@.len(), c_len == c0.len(),
                    0 <= j < nu,
                    0 <= i <= mu,
                    c@.len() == c0.len(),
                    forall|ii: int, jj: int| m <= ii < ldc && 0 <= jj < n
                        ==> #[trigger] cm_entry(c@, ldc as int, ii, jj) == cm_entry(c0, ldc as int, ii, jj),
                    forall|t: int| ldc * n <= t < c0.len() ==> #[trigger] c@[t] == c0[t],
                    forall|ii: int, jj: int| 0 <= ii < m && 0 <= jj < j
                        ==> Self::value(#[trigger] cm_entry(c@, ldc as int, ii, jj)) == cm_dot(a@, lda as int, b@, ldb as int, ii, jj, k as int),
                    forall|ii: int| 0 <= ii < i
                        ==> Self::value(#[trigger] cm_entry(c@, ldc as int, ii, j as int)) == cm_dot(a@, lda as int, b@, ldb as int, ii, j as int, k as int),
                decreases mu - i,
            {
                let mut acc = Self::zero();
                let mut p: usize = 0;
                while p < ku
                    invariant
                        gemm_shape_ok(m as int, n as int, k as int, a@.len() as int, lda as int, b@.len() as int, ldb as int, c0.len() as int, ldc as int),
                        gemm_fits(m as int, n as int, k as int, a@, lda as int, b@, ldb as int),
                        mu == m, nu == n, ku == k, ldau == lda, ldbu == ldb, ldcu == ldc,
                        a_len == a@.len(), b_len == b@.len(), c_len == c0.len(),
                        0 <= j < nu,
                        0 <= i < mu,
                        0 <= p <= ku,
                        Self::value(acc) == cm_dot(a@, lda as int, b@, ldb as int, i as int, j as int, p as int),
                    decreases ku - p,
                {
                    proof {
                        lemma_cm_index(i as int, p as int, lda as int, m as int, k as int);
                        lemma_cm_index(p as int, j as int, ldb as int, k as int, n as int);
                    }
                    let x = a[i + p * ldau];
                    let y = b[p + j * ldbu];
                    proof {
                        assert(Self::fits(cm_term(a@, lda as int, b@, ldb as int, i as int, j as int, p as int)));
                        assert(Self::fits(cm_dot(a@, lda as int, b@, ldb as int, i as int, j as int, p + 1)));
                    }
                    let t = Self::mul_elem(x, y);
                    acc = Self::add_elem(acc, t);
                    p = p + 1;
                }
                proof {
                    lemma_cm_index(i as int, j as int, ldc as int, m as int, n as int);
                }
                let ghost before = c@;
                c[i + j * ldcu] = acc;
                proof {
                    assert forall|ii: int, jj: int| 0 <= ii < m && 0 <= jj < j
                        implies Self::value(#[trigger] cm_entry(c@, ldc as int, ii, jj)) == cm_dot(a@, lda as int, b@, ldb as int, ii, jj, k as int) by {
                        lemma_cm_index(ii, jj, ldc as int, m as int, n as int);
                        lemma_cm_distinct(ii, jj, i as int, j as int, ldc as int, m as int);
                        assert(cm_entry(c@, ldc as int, ii, jj) == cm_entry(before, ldc as int, ii, jj));
                    }
                    assert forall|ii: int, jj: int| m <= ii < ldc && 0 <= jj < n
                        implies #[trigger] cm_entry(c@, ldc as int, ii, jj) == cm_entry(c0, ldc as int, ii, jj) by {
                        lemma_cm_index(ii, jj, ldc as int, ldc as int, n as int);
                        lemma_cm_distinct(ii, jj, i as int, j as int, ldc as int, ldc as int);
                        assert(cm_entry(c@, ldc as int, ii, jj) == cm_entry(before, ldc as int, ii, jj));
                    }
                    assert forall|t: int| ldc * n <= t < c0.len() implies #[trigger] c@[t] == c0[t] by {
                        assert(c@[t] == before[t]);
                    }
                    assert forall|ii: int| 0 <= ii < i + 1
                        implies Self::value(#[trigger] cm_entry(c@, ldc as int, ii, j as int)) == cm_dot(a@, lda as int, b@, ldb as int, ii, j as int, k as int) by {
                        if ii < i {
                            assert(cm_entry(c@, ldc as int, ii, j as int) == cm_entry(before, ldc as int, ii, j as int));
                        }
                    }
                }
                i = i + 1;
            }
            j = j + 1;
        }
    }
}

/// The character of a decimal digit.
pub open spec fn digit_char(d: nat) -> char {
    seq!['0', '1', '2', '3', '4', '5', '6', '7', '8', '9'][d as int]
}

/// The decimal digits of `n`, most significant first, without leading zeros.
pub open spec fn nat_digits(n: nat) -> Seq<char>
    decreases n,
{
    if n < 10 {
        seq![digit_char(n)]
    } else {
        nat_digits(n / 10) + seq![digit_char(n % 10)]
    }
}

/// The decimal text of an integer, with a leading `-` when it is negative.
pub open spec fn decimal_text(v: int) -> Seq<char> {
    if v < 0 {
        seq!['-'] + nat_digits((-v) as nat)
    } else {
        nat_digits(v as nat)
    }
}

/// Relies on `i64`'s `Display` (through `ToString::to_string`): the decimal
/// digits, led by `-` for a negative value.
#[verifier::external_body]
fn i64_decimal(x: i64) -> (r: String)
    ensures
        r@ == decimal_text(x as int),
{
    x.to_string()
}

impl Scalar for i64 {
    open spec fn value(x: i64) -> int {
        x as int
    }

    open spec fn fits(v: int) -> bool {
        i64::MIN <= v <= i64::MAX
    }

    /// Integers have no fractional digits: the precision is not used.
    open spec fn text(x: i64, precision: nat) -> Seq<char> {
        decimal_text(x as int)
    }

    fn zero() -> (r: i64) {
        0
    }

    fn add_elem(x: i64, y: i64) -> (r: i64) {
        x + y
    }

    fn mul_elem(x: i64, y: i64) -> (r: i64) {
        x * y
    }

    fn to_text(x: i64, precision: usize) -> (r: String) {
        i64_decimal(x)
    }
}

impl BlasGemm for i64 {
}

/// Relies on `i32`'s `Display` (through `ToString::to_string`): the decimal
/// digits, led by `-` for a negative value.
#[verifier::external_body]
fn i32_decimal(x: i32) -> (r: String)
    ensures
        r@ == decimal_text(x as int),
{
    x.to_string()
}

impl Scalar for i32 {
    open spec fn value(x: i32) -> int {
        x as int
    }

    open spec fn fits(v: int) -> bool {
        i32::MIN <= v <= i32::MAX
    }

    /// Integers have no fractional digits: the precision is not used.
    open spec fn text(x: i32, precision: nat) -> Seq<char> {
        decimal_text(x as int)
    }

    fn zero() -> (r: i32) {
        0
    }

    fn add_elem(x: i32, y: i32) -> (r: i32) {
        x + y
    }

    fn mul_elem(x: i32, y: i32) -> (r: i32) {
        x * y
    }

    fn to_text(x: i32, precision: usize) -> (r: String) {
        i32_decimal(x)
    }
}

impl BlasGemm for i32 {
}

/// An index `i + j * ld` of a column-major buffer with `ld >= rows` lies
/// inside its `ld * cols` elements.
pub proof fn lemma_cm_index(i: int, j: int, ld: int, rows: int, cols: int)
    requires
        0 <= i < rows,
        0 <= j < cols,
        rows <= ld,
    ensures
        0 <= i + j * ld < ld * cols,
        0 <= j * ld,
{
    assert(0 <= i + j * ld < ld * cols) by (nonlinear_arith)
        requires 0 <= i < rows, 0 <= j < cols, rows <= ld;
    assert(0 <= j * ld) by (nonlinear_arith)
        requires 0 <= j, 0 <= rows, rows <= ld;
}

/// Two cells of distinct columns, or of one column and distinct rows, sit at
/// distinct indices.
pub proof fn lemma_cm_distinct(i1: int, j1: int, i2: int, j2: int, ld: int, rows: int)
    requires
        0 <= i1 < rows,
        0 <= i2 < rows,
        0 <= j1,
        0 <= j2,
        rows <= ld,
        i1 != i2 || j1 != j2,
    ensures
        i1 + j1 * ld != i2 + j2 * ld,
{
    if j1 == j2 {
    } else if j1 < j2 {
        assert(j1 * ld + ld <= j2 * ld) by (nonlinear_arith)
            requires j1 < j2, 0 <= ld;
    } else {
        assert(j2 * ld + ld <= j1 * ld) by (nonlinear_arith)
            requires j2 < j1, 0 <= ld;
    }
}

} // verus!
