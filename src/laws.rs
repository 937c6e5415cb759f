use vstd::prelude::*;

use crate::element::Scalar;
use crate::mat::Mat;

verus! {

/// A buffer of `rows * cols` elements makes a well-formed matrix whose cell
/// `(i, j)` is `data[i * cols + j]` for every cell of the matrix, which is
/// what `get` returns there; `get` returns `None` at every other position.
pub proof fn law_construction_cells<T>(m: Mat<T>, rows: usize, cols: usize, data: Seq<T>)
    requires
        data.len() == rows * cols,
        m.rows == rows,
        m.cols == cols,
        m.data@ == data,
    ensures
        m.wf(),
        forall|i: int, j: int| 0 <= i < rows && 0 <= j < cols ==> #[trigger] m.cell(i, j) == data[i * cols + j],
        forall|i: int, j: int| !(0 <= i < rows && 0 <= j < cols) ==> !#[trigger] m.in_bounds(i, j),
{
}

/// Addition is commutative: `a + b` and `b + a` hold the same number in
/// every cell, and each is the cellwise sum.
pub proof fn law_add_commutative<T: Scalar>(a: Mat<T>, b: Mat<T>, ab: Mat<T>, ba: Mat<T>)
    requires
        a.same_shape(&b),
        Mat::<T>::is_sum_of(&ab, &a, &b),
        Mat::<T>::is_sum_of(&ba, &b, &a),
    ensures
        ab.rows == ba.rows && ab.cols == ba.cols,
        forall|i: int, j: int| a.in_bounds(i, j) ==> #[trigger] ab.val(i, j) == ba.val(i, j),
        forall|i: int, j: int| a.in_bounds(i, j) ==> #[trigger] ab.val(i, j) == a.val(i, j) + b.val(i, j),
{
    assert forall|i: int, j: int| a.in_bounds(i, j) implies #[trigger] ab.val(i, j) == ba.val(i, j) by {
        assert(b.in_bounds(i, j));
    }
}

/// The data-parallel and the sequential sums of the same two matrices hold
/// the same number in every cell.
pub proof fn law_add_paths_agree<T: Scalar>(a: Mat<T>, b: Mat<T>, par: Mat<T>, seq: Mat<T>)
    requires
        Mat::<T>::is_sum_of(&par, &a, &b),
        Mat::<T>::is_sum_of(&seq, &a, &b),
    ensures
        par.rows == seq.rows && par.cols == seq.cols,
        forall|i: int, j: int| par.in_bounds(i, j) ==> #[trigger] par.val(i, j) == seq.val(i, j),
{
}

/// A product `a * b` has `a.rows` rows and `b.cols` columns.
pub proof fn law_product_shape<T: Scalar>(a: Mat<T>, b: Mat<T>, r: Mat<T>)
    requires
        Mat::<T>::is_product_of(&r, &a, &b),
    ensures
        r.rows == a.rows,
        r.cols == b.cols,
        r.wf(),
{
}

/// The reference triple loop and the general matrix product give the same
/// number in every cell of `a * b`.
pub proof fn law_product_paths_agree<T: Scalar>(a: Mat<T>, b: Mat<T>, naive: Mat<T>, gemm: Mat<T>)
    requires
        Mat::<T>::is_product_of(&naive, &a, &b),
        Mat::<T>::is_product_of(&gemm, &a, &b),
    ensures
        naive.rows == gemm.rows && naive.cols == gemm.cols,
        forall|i: int, j: int| naive.in_bounds(i, j) ==> #[trigger] naive.val(i, j) == gemm.val(i, j),
{
}

/// Scaling on the right and on the left give the same matrix numbers:
/// `(a * c)[i][j] == (c * a)[i][j] == c * a[i][j]`.
pub proof fn law_scale_sides_agree<T: Scalar>(a: Mat<T>, c: T, right: Mat<T>, left: Mat<T>)
    requires
        Mat::<T>::is_scaled_of(&right, &a, c),
        Mat::<T>::is_scaled_of(&left, &a, c),
    ensures
        right.rows == left.rows && right.cols == left.cols,
        forall|i: int, j: int| a.in_bounds(i, j) ==> #[trigger] right.val(i, j) == left.val(i, j),
        forall|i: int, j: int| a.in_bounds(i, j) ==> #[trigger] left.val(i, j) == T::value(c) * a.val(i, j),
{
    assert forall|i: int, j: int| a.in_bounds(i, j) implies #[trigger] left.val(i, j) == T::value(c) * a.val(i, j) by {
        vstd::arithmetic::mul::lemma_mul_is_commutative(T::value(c), a.val(i, j));
    }
}

/// Rendering is a function of the matrix and the precision: two renderings
/// of one matrix with one precision are the same text, in either form.
pub proof fn law_render_repeatable<T: Scalar>(
    m: Mat<T>,
    precision: nat,
    first: Seq<char>,
    second: Seq<char>,
    first_nested: Seq<char>,
    second_nested: Seq<char>,
)
    requires
        first == m.grid_text(m.rows as int, precision),
        second == m.grid_text(m.rows as int, precision),
        first_nested == m.list_text(m.rows as int, precision) + seq![']'],
        second_nested == m.list_text(m.rows as int, precision) + seq![']'],
    ensures
        first == second,
        first_nested == second_nested,
{
}

} // verus!
