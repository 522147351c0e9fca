use aicaramba::Collect;
use aicaramba::Mat;
use aicaramba::MatError;

fn m(rows: usize, cols: usize, data: Vec<i64>) -> Mat<i64> {
    Mat::new(rows, cols, data).unwrap()
}

#[test]
fn add_is_commutative() {
    let a = m(2, 2, vec![1, 2, 3, 4]);
    let b = m(2, 2, vec![10, -20, 30, -40]);
    assert_eq!(a.add(&b).unwrap(), b.add(&a).unwrap());
}

#[test]
fn add_values() {
    let a = m(2, 2, vec![1, 2, 3, 4]);
    let b = m(2, 2, vec![5, 6, 7, 8]);
    assert_eq!(a.add(&b).unwrap(), m(2, 2, vec![6, 8, 10, 12]));
}

#[test]
fn sub_reversed_is_negated() {
    let a = m(2, 3, vec![1, 2, 3, 4, 5, 6]);
    let b = m(2, 3, vec![9, 8, 7, 6, 5, 4]);
    let lhs = a.sub(&b).unwrap();
    let rhs = b.sub(&a).unwrap().map(&|x: i64| -x);
    assert_eq!(lhs, rhs);
}

#[test]
fn transpose_twice_is_identity() {
    let a = m(2, 3, vec![1, 2, 3, 4, 5, 6]);
    assert_eq!(a.transpose().transpose(), a);
}

#[test]
fn transpose_values() {
    let a = m(2, 2, vec![1, 2, 3, 4]);
    assert_eq!(a.transpose(), m(2, 2, vec![1, 3, 2, 4]));
}

#[test]
fn dot_shape_law() {
    let a = m(2, 3, vec![1, 2, 3, 4, 5, 6]);
    let b = m(3, 4, vec![0; 12]);
    let p = a.dot(&b).unwrap();
    assert_eq!(p.rows, 2);
    assert_eq!(p.cols, 4);
}

#[test]
fn dot_values() {
    let a = m(2, 3, vec![1, 2, 3, 4, 5, 6]);
    let b = m(3, 2, vec![7, 8, 9, 10, 11, 12]);
    // Row 0: 1*7+2*9+3*11 = 58, 1*8+2*10+3*12 = 64
    // Row 1: 4*7+5*9+6*11 = 139, 4*8+5*10+6*12 = 154
    assert_eq!(a.dot(&b).unwrap(), m(2, 2, vec![58, 64, 139, 154]));
}

#[test]
fn dot_inner_dimension_mismatch() {
    let a = m(2, 3, vec![1, 2, 3, 4, 5, 6]);
    let b = m(2, 3, vec![1, 2, 3, 4, 5, 6]);
    assert_eq!(a.dot(&b), Err(MatError::ShapeMismatch));
}

#[test]
fn elementwise_ops_reject_differing_shapes() {
    let shapes = [(1usize, 4usize), (4, 1), (2, 3), (3, 2), (1, 1)];
    let a = m(2, 2, vec![1, 2, 3, 4]);
    for (r, c) in shapes {
        let b = m(r, c, vec![1; r * c]);
        assert_eq!(a.add(&b), Err(MatError::ShapeMismatch));
        assert_eq!(a.sub(&b), Err(MatError::ShapeMismatch));
        assert_eq!(a.elementwise_mul(&b), Err(MatError::ShapeMismatch));
        assert_eq!(
            a.elementwise(&b, &|x: i64, y: i64| x + y),
            Err(MatError::ShapeMismatch)
        );
    }
}

#[test]
fn elementwise_mul_values() {
    let a = m(1, 3, vec![2, 3, 4]);
    let b = m(1, 3, vec![5, 6, 7]);
    assert_eq!(a.elementwise_mul(&b).unwrap(), m(1, 3, vec![10, 18, 28]));
}

#[test]
fn elementwise_general_combinator() {
    let a = m(2, 2, vec![1, 2, 3, 4]);
    let b = m(2, 2, vec![10, 20, 30, 40]);
    let r = a.elementwise(&b, &|x: i64, y: i64| y - x).unwrap();
    assert_eq!(r, m(2, 2, vec![9, 18, 27, 36]));
}

#[test]
fn construction_rejects_wrong_data_length() {
    assert_eq!(Mat::<i64>::new(2, 3, vec![1, 2, 3, 4, 5]), Err(MatError::SizeMismatch));
    assert_eq!(Mat::<i64>::new(0, 3, vec![1]), Err(MatError::SizeMismatch));
    assert_eq!(Mat::<i64>::new(4, 0, vec![1, 2]), Err(MatError::SizeMismatch));
    assert_eq!(Mat::<i64>::new(usize::MAX, 2, vec![7]), Err(MatError::SizeMismatch));
    assert!(Mat::<i64>::new(2, 3, vec![1, 2, 3, 4, 5, 6]).is_ok());
    assert!(Mat::<i64>::new(0, 0, vec![]).is_ok());
}

#[test]
fn map_applies_to_every_element() {
    let a = m(2, 2, vec![1, -2, 3, -4]);
    assert_eq!(a.map(&|x: i64| x * x), m(2, 2, vec![1, 4, 9, 16]));
}

#[test]
fn scale_multiplies_by_scalar() {
    let a = m(2, 2, vec![1, 2, 3, 4]);
    assert_eq!(a.scale(3), m(2, 2, vec![3, 6, 9, 12]));
}

#[test]
fn default_with_size_is_zero_filled() {
    let z = Mat::<i64>::default_with_size(3, 2);
    assert_eq!(z, m(3, 2, vec![0; 6]));
}

#[test]
fn at_and_at_mut_use_row_major_order() {
    let mut a = m(2, 3, vec![1, 2, 3, 4, 5, 6]);
    assert_eq!(*a.at(0, 0), 1);
    assert_eq!(*a.at(0, 2), 3);
    assert_eq!(*a.at(1, 0), 4);
    *a.at_mut(1, 1) = 50;
    assert_eq!(*a.at(1, 1), 50);
    assert_eq!(a, m(2, 3, vec![1, 2, 3, 4, 50, 6]));
}

#[test]
fn row_copies_the_contiguous_slice() {
    let a = m(2, 3, vec![1, 2, 3, 4, 5, 6]);
    assert_eq!(a.row(0), vec![1, 2, 3]);
    assert_eq!(a.row(1), vec![4, 5, 6]);
}

#[test]
fn from_vec_makes_a_column() {
    let v = Mat::from_vec(vec![1i64, 2, 3]);
    assert_eq!(v.rows, 3);
    assert_eq!(v.cols, 1);
    assert_eq!(v, m(3, 1, vec![1, 2, 3]));
}

#[test]
fn from_column_copies_a_column() {
    let data = vec![4i64, 5];
    let v = Mat::from_column(&data);
    assert_eq!(v, m(2, 1, vec![4, 5]));
}

#[test]
fn from_rows_builds_row_major() {
    let a = Mat::from_rows(vec![vec![1i64, 2], vec![3, 4]]).unwrap();
    assert_eq!(a, m(2, 2, vec![1, 2, 3, 4]));
}

#[test]
fn from_rows_rejects_ragged_rows() {
    assert_eq!(
        Mat::from_rows(vec![vec![1i64, 2], vec![3]]),
        Err(MatError::SizeMismatch)
    );
}

#[test]
fn collect_mat_checks_the_size() {
    let ok = vec![1i64, 2, 3, 4, 5, 6].collect_mat(2, 3).unwrap();
    assert_eq!(ok, m(2, 3, vec![1, 2, 3, 4, 5, 6]));
    assert_eq!(
        vec![1i64, 2, 3].collect_mat(2, 3),
        Err(MatError::SizeMismatch)
    );
}
