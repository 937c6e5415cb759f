use aluminum::element::{BlasGemm, Scalar};
use aluminum::mat::Mat;

fn m(rows: usize, cols: usize, data: Vec<i64>) -> Mat<i64> {
    Mat::new(rows, cols, data)
}

#[test]
fn construction_and_get() {
    let a = Mat::from_vec(2, 3, vec![1i64, 2, 3, 4, 5, 6]);
    assert_eq!(a.rows, 2);
    assert_eq!(a.cols, 3);
    for i in 0..2 {
        for j in 0..3 {
            assert_eq!(a.get(i, j), Some(&a.data[i * 3 + j]));
        }
    }
    assert_eq!(a.get(1, 2), Some(&6));
    assert_eq!(a.get(2, 0), None);
    assert_eq!(a.get(0, 3), None);
    assert_eq!(a.get(5, 5), None);
}

#[test]
fn empty_matrix_has_no_cells() {
    let a: Mat<i64> = m(0, 4, vec![]);
    assert_eq!(a.get(0, 0), None);
    let b: Mat<i64> = m(3, 0, vec![]);
    assert_eq!(b.get(0, 0), None);
}

#[test]
fn from_fn_fills_row_major() {
    let c = Mat::from_fn(2, 3, |i, j| (10 * i + j) as i64);
    assert_eq!(c.data, vec![0, 1, 2, 10, 11, 12]);
    assert_eq!(c.get(1, 2), Some(&12));
}

#[test]
fn addition_is_cellwise_and_commutative() {
    let a = m(2, 2, vec![1, 2, 3, 4]);
    let b = m(2, 2, vec![5, -6, 7, 8]);
    let ab = a.add(&b);
    let ba = b.add(&a);
    assert_eq!(ab.data, vec![6, -4, 10, 12]);
    assert_eq!(ab.data, ba.data);
    for i in 0..2 {
        for j in 0..2 {
            assert_eq!(*ab.get(i, j).unwrap(), a.get(i, j).unwrap() + b.get(i, j).unwrap());
        }
    }
}

#[test]
fn parallel_and_sequential_addition_agree() {
    let a = Mat::from_fn(7, 9, |i, j| (i * 31 + j * 7) as i64 - 100);
    let b = Mat::from_fn(7, 9, |i, j| (i as i64) * (j as i64) - 3);
    let par = a.add(&b);
    let seq = a.add_seq(&b);
    assert_eq!(par.rows, seq.rows);
    assert_eq!(par.cols, seq.cols);
    assert_eq!(par.data, seq.data);
}

#[test]
fn addition_at_the_edge_of_the_range() {
    let a = m(1, 2, vec![i64::MAX - 1, i64::MIN + 1]);
    let b = m(1, 2, vec![1, -1]);
    assert_eq!(a.add(&b).data, vec![i64::MAX, i64::MIN]);
    assert_eq!(a.add_seq(&b).data, vec![i64::MAX, i64::MIN]);
}

#[test]
fn product_of_two_by_two_both_paths() {
    let a = m(2, 2, vec![1, 2, 3, 4]);
    let b = m(2, 2, vec![5, 6, 7, 8]);
    let expected = vec![19, 22, 43, 50];
    let naive = a.mul_naive(&b);
    let gemm = a.mul(&b);
    assert_eq!(naive.data, expected);
    assert_eq!(gemm.data, expected);
    assert_eq!((gemm.rows, gemm.cols), (2, 2));
}

#[test]
fn product_shape_of_rectangular_operands() {
    let a = m(2, 3, vec![1, 2, 3, 4, 5, 6]);
    let b = m(3, 4, vec![1, 0, 2, -1, 0, 1, 3, 2, 1, 1, 0, 1]);
    let r = a.mul(&b);
    assert_eq!((r.rows, r.cols), (2, 4));
    assert_eq!(r.data, vec![4, 5, 8, 6, 10, 11, 23, 12]);
    assert_eq!(a.mul_naive(&b).data, r.data);
}

#[test]
fn product_with_empty_inner_dimension_is_zero() {
    let a: Mat<i64> = m(2, 0, vec![]);
    let b: Mat<i64> = m(0, 3, vec![]);
    let r = a.mul(&b);
    assert_eq!((r.rows, r.cols), (2, 3));
    assert_eq!(r.data, vec![0; 6]);
    assert_eq!(a.mul_naive(&b).data, vec![0; 6]);
}

#[test]
fn scalar_multiplication_both_sides() {
    let a = m(2, 3, vec![1, -2, 3, 0, 5, 7]);
    let right = a.mul_scalar(3);
    let left = Mat::scalar_mul(3, &a);
    assert_eq!(right.data, vec![3, -6, 9, 0, 15, 21]);
    assert_eq!(left.data, right.data);
    for i in 0..2 {
        for j in 0..3 {
            assert_eq!(*left.get(i, j).unwrap(), 3 * a.get(i, j).unwrap());
        }
    }
}

#[test]
fn dot_of_row_and_column() {
    let r = m(1, 3, vec![1, 2, 3]);
    let c = m(3, 1, vec![4, 5, 6]);
    assert_eq!(r.dot(&c), Some(32));
}

#[test]
fn dot_rejects_other_shapes() {
    let r = m(1, 3, vec![1, 2, 3]);
    let c = m(3, 1, vec![4, 5, 6]);
    let c2 = m(2, 1, vec![4, 5]);
    let sq = m(2, 2, vec![1, 2, 3, 4]);
    assert_eq!(c.dot(&r), None);
    assert_eq!(r.dot(&r), None);
    assert_eq!(r.dot(&c2), None);
    assert_eq!(sq.dot(&sq), None);
}

#[test]
fn dot_of_empty_vectors_is_zero() {
    let r: Mat<i64> = m(1, 0, vec![]);
    let c: Mat<i64> = m(0, 1, vec![]);
    assert_eq!(r.dot(&c), Some(0));
}

#[test]
fn render_rows_per_line() {
    let a = m(2, 2, vec![1, -23, 4, 500]);
    assert_eq!(a.render(3), "1 -23 \n4 500 \n");
}

#[test]
fn render_is_repeatable() {
    let a = Mat::from_fn(3, 4, |i, j| (i as i64) - (j as i64) * 11);
    let first = a.render(2);
    let second = a.render(2);
    assert_eq!(first, second);
    assert_eq!(a.render_nested(2), a.render_nested(2));
}

#[test]
fn render_nested_lists_rows() {
    let a = m(2, 3, vec![1, 2, 3, -4, 5, 60]);
    assert_eq!(a.render_nested(3), "[\n  [1, 2, 3],\n  [-4, 5, 60],\n]");
    let e: Mat<i64> = m(0, 0, vec![]);
    assert_eq!(e.render_nested(3), "[\n]");
    assert_eq!(e.render(3), "");
}

#[test]
fn element_text_is_decimal() {
    assert_eq!(<i64 as Scalar>::to_text(-905, 3), "-905");
    assert_eq!(<i64 as Scalar>::to_text(0, 0), "0");
    assert_eq!(<i64 as Scalar>::to_text(i64::MIN, 1), "-9223372036854775808");
}

#[test]
fn gemm_on_padded_column_major_buffers() {
    // A is 2x2 column-major [[1,3],[2,4]] stored with leading dimension 3.
    let a = vec![1i64, 2, 99, 3, 4, 99];
    // B is 2x1: [5, 6].
    let b = vec![5i64, 6];
    let mut c = vec![-1i64; 6];
    <i64 as BlasGemm>::gemm(2, 1, 2, &a, 3, &b, 2, &mut c, 3);
    assert_eq!(c[0], 1 * 5 + 3 * 6);
    assert_eq!(c[1], 2 * 5 + 4 * 6);
    assert_eq!(&c[2..], &[-1, -1, -1, -1]);
}

#[test]
fn narrow_elements_multiply_and_render() {
    let a: Mat<i32> = Mat::new(2, 2, vec![1i32, 2, 3, 4]);
    let b: Mat<i32> = Mat::new(2, 2, vec![5i32, 6, 7, 8]);
    assert_eq!(a.mul(&b).data, vec![19, 22, 43, 50]);
    assert_eq!(a.mul_naive(&b).data, vec![19, 22, 43, 50]);
    assert_eq!(a.add(&b).data, vec![6, 8, 10, 12]);
    assert_eq!(a.mul_scalar(-2).render(1), "-2 -4 \n-6 -8 \n");
}
