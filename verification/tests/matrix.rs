use dense_matrix::matrix::{Matrix, MatrixError, MatrixIndex, MatrixSize};

fn plus(a: f32, b: f32) -> f32 {
    a + b
}

fn times(a: f32, b: f32) -> f32 {
    a * b
}

fn close(a: f32, b: f32) -> bool {
    !((a - b).abs() > f32::EPSILON)
}

fn source_3x3() -> Matrix<f32> {
    Matrix::from_vec(vec![
        vec![3f32, 2f32, 1f32],
        vec![1f32, 8f32, 0f32],
        vec![-9f32, 2f32, 5f32],
    ])
    .unwrap()
}

#[test]
fn swizzle() {
    let matrix = Matrix::from_vec(vec![
        vec![3f32, 2f32, 1f32],
        vec![1f32, 8f32, 0f32],
        vec![-9f32, 2f32, 5f32],
    ])
    .unwrap();
    let swizzle = matrix
        .swizzle(MatrixIndex::new(1, 1), MatrixSize::new(2, 2))
        .unwrap();
    assert_eq!(MatrixSize::new(2, 2), swizzle.get_size());
    assert!(Matrix::from_vec(vec![vec![8f32, 0f32], vec![2f32, 5f32]])
        .unwrap()
        .eq(&swizzle, close));
    assert_eq!(swizzle.as_vec(), vec![vec![8f32, 0f32], vec![2f32, 5f32]]);
}

#[test]
fn matrix_mul() {
    let matrix1 = Matrix::from_vec(vec![
        vec![3f32, 2f32, 1f32],
        vec![1f32, 8f32, 0f32],
        vec![-9f32, 2f32, 5f32],
    ])
    .unwrap();
    let matrix2 = Matrix::from_vec(vec![
        vec![8f32, -1f32, -3f32],
        vec![0f32, -2f32, 3f32],
        vec![-9f32, 2f32, 5f32],
    ])
    .unwrap();
    let result_desired = Matrix::from_vec(vec![
        vec![15f32, -5f32, 2f32],
        vec![8f32, -17f32, 21f32],
        vec![-117f32, 15f32, 58f32],
    ])
    .unwrap();
    let result = matrix1.matrix_mul(&matrix2, 0f32, times, plus).unwrap();
    assert!(result.eq(&result_desired, close));

    let matrix1 = Matrix::from_vec(vec![
        vec![3f32, 2f32, 1f32],
        vec![1f32, 8f32, 0f32],
        vec![-9f32, 2f32, 5f32],
        vec![15f32, -5f32, 2f32],
    ])
    .unwrap();
    let matrix2 = Matrix::from_vec(vec![
        vec![8f32, -1f32],
        vec![0f32, -2f32],
        vec![-9f32, 2f32],
    ])
    .unwrap();
    let result_desired = Matrix::from_vec(vec![
        vec![15f32, -5f32],
        vec![8f32, -17f32],
        vec![-117f32, 15f32],
        vec![102f32, -1f32],
    ])
    .unwrap();
    let result = matrix1.matrix_mul(&matrix2, 0f32, times, plus).unwrap();
    assert!(result.eq(&result_desired, close));
    assert_eq!(result.get_size(), MatrixSize::new(4, 2));
}

#[test]
fn get_element_past_the_last_row_is_out_of_bound() {
    let matrix = source_3x3();
    assert_eq!(
        matrix.get_element(MatrixIndex::new(3, 0)),
        Err(MatrixError::IndexOutOfBound)
    );
    assert_eq!(matrix.get_element(MatrixIndex::new(2, 0)), Ok(-9f32));
}

fn minus(a: f32, b: f32) -> f32 {
    a - b
}

fn divide(a: f32, b: f32) -> f32 {
    a / b
}

fn is_error(made: Result<Matrix<f32>, MatrixError>, expected: MatrixError) -> bool {
    match made {
        Ok(_) => false,
        Err(error) => error == expected,
    }
}

#[test]
fn from_vec_refuses_rows_of_different_length() {
    let made = Matrix::from_vec(vec![vec![1f32, 2f32], vec![3f32]]);
    assert!(is_error(made, MatrixError::NonRectangularElementVector));
    let made = Matrix::from_vec(vec![vec![1f32], vec![2f32], vec![3f32, 4f32]]);
    assert!(is_error(made, MatrixError::NonRectangularElementVector));
}

#[test]
fn from_vec_refuses_absent_rows_and_an_empty_first_row() {
    assert!(is_error(Matrix::from_vec(vec![]), MatrixError::ZeroSizeMatrix));
    assert!(is_error(Matrix::from_vec(vec![vec![]]), MatrixError::ZeroSizeMatrix));
    assert!(is_error(
        Matrix::from_vec(vec![vec![], vec![1f32]]),
        MatrixError::ZeroSizeMatrix
    ));
    assert!(is_error(
        Matrix::from_vec(vec![vec![1f32], vec![]]),
        MatrixError::NonRectangularElementVector
    ));
}

#[test]
fn new_fills_the_shape_with_zero() {
    let matrix = Matrix::new(MatrixSize::new(2, 3), 0f32).unwrap();
    assert_eq!(matrix.get_size(), MatrixSize::new(2, 3));
    assert_eq!(matrix.as_vec(), vec![vec![0f32; 3]; 2]);
}

#[test]
fn new_refuses_only_the_shape_with_both_dimensions_zero() {
    assert!(is_error(Matrix::new(MatrixSize::new(0, 0), 0f32), MatrixError::ZeroSizeMatrix));
    let no_rows = Matrix::new(MatrixSize::new(0, 3), 0f32).unwrap();
    assert_eq!(no_rows.as_vec(), Vec::<Vec<f32>>::new());
    let no_cols = Matrix::new(MatrixSize::new(3, 0), 0f32).unwrap();
    assert_eq!(no_cols.get_size(), MatrixSize::new(3, 0));
    assert_eq!(no_cols.as_vec(), vec![Vec::<f32>::new(); 3]);
}

#[test]
fn every_row_of_a_constructed_matrix_has_the_width_of_its_size() {
    let built = [
        Matrix::new(MatrixSize::new(3, 4), 0f32).unwrap(),
        Matrix::identity_matrix(5, 0f32, 1f32).unwrap(),
        Matrix::from_vec(vec![vec![1f32, 2f32], vec![3f32, 4f32], vec![5f32, 6f32]]).unwrap(),
    ];
    for matrix in built.iter() {
        let size = matrix.get_size();
        let rows = matrix.as_vec();
        assert_eq!(rows.len(), size.row);
        for row in rows.iter() {
            assert_eq!(row.len(), size.col);
        }
    }
}

#[test]
fn from_vec_then_as_vec_gives_the_rows_back() {
    let rows = vec![vec![1.5f32, -2f32, 0f32], vec![7f32, 8.25f32, -9f32]];
    assert_eq!(Matrix::from_vec(rows.clone()).unwrap().as_vec(), rows);
    let single = vec![vec![42f32]];
    assert_eq!(Matrix::from_vec(single.clone()).unwrap().as_vec(), single);
}

#[test]
fn identity_matrix_has_one_on_the_diagonal() {
    let identity = Matrix::identity_matrix(3, 0f32, 1f32).unwrap();
    assert_eq!(
        identity.as_vec(),
        vec![
            vec![1f32, 0f32, 0f32],
            vec![0f32, 1f32, 0f32],
            vec![0f32, 0f32, 1f32],
        ]
    );
    assert!(is_error(Matrix::identity_matrix(0, 0f32, 1f32), MatrixError::ZeroSizeMatrix));
    assert_eq!(Matrix::identity_matrix(1, 0f32, 1f32).unwrap().as_vec(), vec![vec![1f32]]);
}

#[test]
fn identity_times_a_matrix_is_that_matrix() {
    let matrix = Matrix::from_vec(vec![
        vec![3f32, 2f32],
        vec![1f32, 8f32],
        vec![-9f32, 2.5f32],
    ])
    .unwrap();
    let identity = Matrix::identity_matrix(3, 0f32, 1f32).unwrap();
    let product = identity.matrix_mul(&matrix, 0f32, times, plus).unwrap();
    assert!(product.eq(&matrix, close));
    assert_eq!(product.as_vec(), matrix.as_vec());
}

#[test]
fn transpose_of_a_square_matrix_twice_is_the_matrix() {
    let matrix = source_3x3();
    let once = matrix.transpose(0f32);
    assert_eq!(once.get_size(), MatrixSize::new(3, 3));
    assert_eq!(once.as_vec(), matrix.as_vec());
    let twice = once.transpose(0f32);
    assert!(twice.eq(&matrix, close));
    assert_eq!(matrix.as_vec(), source_3x3().as_vec());
}

#[test]
fn transpose_of_one_row_has_the_swapped_size() {
    let matrix = Matrix::from_vec(vec![vec![1f32, 2f32, 3f32]]).unwrap();
    let turned = matrix.transpose(0f32);
    assert_eq!(turned.get_size(), MatrixSize::new(3, 1));
    assert_eq!(turned.as_vec(), vec![vec![1f32], vec![0f32], vec![0f32]]);
    assert_eq!(matrix.as_vec(), vec![vec![1f32, 2f32, 3f32]]);
}

#[test]
fn transpose_keeps_the_entries_at_their_own_indices() {
    let tall = Matrix::from_vec(vec![vec![1f32, 2f32], vec![3f32, 4f32], vec![5f32, 6f32]])
        .unwrap();
    let wide = tall.transpose(0f32);
    assert_eq!(wide.get_size(), MatrixSize::new(2, 3));
    assert_eq!(wide.as_vec(), vec![vec![1f32, 2f32, 0f32], vec![3f32, 4f32, 0f32]]);
    let back = wide.transpose(0f32);
    assert_eq!(back.get_size(), MatrixSize::new(3, 2));
    assert_eq!(
        back.as_vec(),
        vec![vec![1f32, 2f32], vec![3f32, 4f32], vec![0f32, 0f32]]
    );
    let filled = tall.transpose(-1f32);
    assert_eq!(filled.as_vec(), vec![vec![1f32, 2f32, -1f32], vec![3f32, 4f32, -1f32]]);
}

#[test]
fn transpose_of_a_matrix_without_columns_has_no_rows() {
    let matrix = Matrix::new(MatrixSize::new(3, 0), 0f32).unwrap();
    let turned = matrix.transpose(0f32);
    assert_eq!(turned.as_vec(), Vec::<Vec<f32>>::new());
    assert!(!turned.is_well_formed());
}

#[test]
fn is_well_formed_asks_for_a_row_and_rows_of_one_length() {
    assert!(source_3x3().is_well_formed());
    assert!(Matrix::new(MatrixSize::new(3, 0), 0f32).unwrap().is_well_formed());
    assert!(!Matrix::new(MatrixSize::new(0, 3), 0f32).unwrap().is_well_formed());
    let mut matrix = source_3x3();
    matrix.set_vec(&vec![vec![1f32, 2f32], vec![3f32]]);
    assert!(!matrix.is_well_formed());
    matrix.set_vec(&vec![vec![1f32], vec![2f32, 3f32]]);
    assert!(!matrix.is_well_formed());
    matrix.set_vec(&vec![]);
    assert!(!matrix.is_well_formed());
    matrix.set_vec(&vec![vec![1f32, 2f32], vec![3f32, 4f32]]);
    assert!(matrix.is_well_formed());
}

#[test]
fn matrix_mul_has_the_rows_of_the_left_and_the_columns_of_the_right() {
    let left = Matrix::new(MatrixSize::new(2, 3), 0f32).unwrap();
    let right = Matrix::new(MatrixSize::new(3, 5), 0f32).unwrap();
    let product = left.matrix_mul(&right, 0f32, times, plus).unwrap();
    assert_eq!(product.get_size(), MatrixSize::new(2, 5));
    assert!(is_error(
        right.matrix_mul(&left, 0f32, times, plus),
        MatrixError::IncompatibleSizeMultiplication
    ));
}

#[test]
fn matrix_mul_accumulates_from_zero_left_to_right() {
    let left = Matrix::from_vec(vec![vec![1f32, 1e8f32, -1e8f32]]).unwrap();
    let right = Matrix::from_vec(vec![vec![1f32], vec![1f32], vec![1f32]]).unwrap();
    let product = left.matrix_mul(&right, 0f32, times, plus).unwrap();
    assert_eq!(product.as_vec(), vec![vec![0f32]]);
    let product = left.matrix_mul(&right, 10f32, times, plus).unwrap();
    assert_eq!(product.as_vec(), vec![vec![8f32]]);
    let small = Matrix::from_vec(vec![vec![2f32, 3f32]]).unwrap();
    let column = Matrix::from_vec(vec![vec![4f32], vec![5f32]]).unwrap();
    let product = small.matrix_mul(&column, 100f32, times, plus).unwrap();
    assert_eq!(product.as_vec(), vec![vec![123f32]]);
}

#[test]
fn eq_tolerates_a_difference_of_epsilon_and_no_more() {
    let one = Matrix::from_vec(vec![vec![1f32, 2f32]]).unwrap();
    let at_epsilon = Matrix::from_vec(vec![vec![1f32 + f32::EPSILON, 2f32]]).unwrap();
    let beyond = Matrix::from_vec(vec![vec![1f32 + 2f32 * f32::EPSILON, 2f32]]).unwrap();
    assert!(one.eq(&one, close));
    assert!(one.eq(&at_epsilon, close));
    assert!(at_epsilon.eq(&one, close));
    assert!(!one.eq(&beyond, close));
    assert!(!beyond.eq(&one, close));
}

#[test]
fn eq_is_false_for_different_shapes() {
    let row = Matrix::from_vec(vec![vec![1f32, 1f32]]).unwrap();
    let column = Matrix::from_vec(vec![vec![1f32], vec![1f32]]).unwrap();
    let longer = Matrix::from_vec(vec![vec![1f32, 1f32, 1f32]]).unwrap();
    assert!(!row.eq(&column, close));
    assert!(!row.eq(&longer, close));
    assert!(!longer.eq(&row, close));
}

#[test]
fn get_row_gives_one_row() {
    let matrix = source_3x3();
    let row = matrix.get_row(1).unwrap();
    assert_eq!(row.get_size(), MatrixSize::new(1, 3));
    assert_eq!(row.as_vec(), vec![vec![1f32, 8f32, 0f32]]);
    assert_eq!(matrix.get_row(2).unwrap().as_vec(), vec![vec![-9f32, 2f32, 5f32]]);
    assert!(is_error(matrix.get_row(3), MatrixError::IndexOutOfBound));
    assert!(is_error(matrix.get_row(4), MatrixError::IndexOutOfBound));
}

#[test]
fn get_col_gives_one_column() {
    let matrix = Matrix::from_vec(vec![
        vec![3f32, 2f32, 1f32],
        vec![1f32, 8f32, 0f32],
        vec![-9f32, 2f32, 5f32],
        vec![15f32, -5f32, 2f32],
    ])
    .unwrap();
    let col = matrix.get_col(2).unwrap();
    assert_eq!(col.get_size(), MatrixSize::new(4, 1));
    assert_eq!(col.as_vec(), vec![vec![1f32], vec![0f32], vec![5f32], vec![2f32]]);
    assert!(is_error(matrix.get_col(3), MatrixError::IndexOutOfBound));
    let wide = Matrix::from_vec(vec![vec![1f32, 2f32, 3f32]]).unwrap();
    assert_eq!(wide.get_col(1).unwrap().as_vec(), vec![vec![2f32]]);
}

#[test]
fn swizzle_refuses_a_block_that_leaves_the_source() {
    let matrix = source_3x3();
    let both = matrix.swizzle(MatrixIndex::new(2, 2), MatrixSize::new(2, 2));
    assert!(is_error(both, MatrixError::IndexOutOfBound));
    let rows_only = matrix.swizzle(MatrixIndex::new(2, 0), MatrixSize::new(2, 2));
    assert!(is_error(rows_only, MatrixError::IndexOutOfBound));
    let cols_only = matrix.swizzle(MatrixIndex::new(0, 2), MatrixSize::new(2, 2));
    assert!(is_error(cols_only, MatrixError::IndexOutOfBound));
    let huge = matrix.swizzle(MatrixIndex::new(1, 1), MatrixSize::new(usize::MAX, usize::MAX));
    assert!(is_error(huge, MatrixError::IndexOutOfBound));
}

#[test]
fn swizzle_of_the_whole_and_of_nothing() {
    let matrix = source_3x3();
    let whole = matrix.swizzle(MatrixIndex::new(0, 0), MatrixSize::new(3, 3)).unwrap();
    assert_eq!(whole.as_vec(), matrix.as_vec());
    let corner = matrix.swizzle(MatrixIndex::new(2, 2), MatrixSize::new(1, 1)).unwrap();
    assert_eq!(corner.as_vec(), vec![vec![5f32]]);
    let nothing = matrix.swizzle(MatrixIndex::new(1, 1), MatrixSize::new(0, 0));
    assert!(is_error(nothing, MatrixError::ZeroSizeMatrix));
    let outside_nothing = matrix.swizzle(MatrixIndex::new(4, 4), MatrixSize::new(0, 0));
    assert!(is_error(outside_nothing, MatrixError::IndexOutOfBound));
}

#[test]
fn set_element_writes_inside_and_refuses_outside() {
    let mut matrix = source_3x3();
    assert_eq!(matrix.set_element(MatrixIndex::new(1, 2), 7.5f32), Ok(()));
    assert_eq!(matrix.get_element(MatrixIndex::new(1, 2)), Ok(7.5f32));
    assert_eq!(
        matrix.as_vec(),
        vec![
            vec![3f32, 2f32, 1f32],
            vec![1f32, 8f32, 7.5f32],
            vec![-9f32, 2f32, 5f32],
        ]
    );
    assert_eq!(
        matrix.set_element(MatrixIndex::new(0, 3), 1f32),
        Err(MatrixError::IndexOutOfBound)
    );
    assert_eq!(
        matrix.set_element(MatrixIndex::new(3, 3), 1f32),
        Err(MatrixError::IndexOutOfBound)
    );
    assert_eq!(matrix.get_element(MatrixIndex::new(0, 3)), Err(MatrixError::IndexOutOfBound));
    assert_eq!(matrix.get_size(), MatrixSize::new(3, 3));
}

#[test]
fn set_vec_replaces_the_grid() {
    let mut matrix = source_3x3();
    let rows = vec![vec![1f32, 2f32], vec![3f32, 4f32]];
    matrix.set_vec(&rows);
    assert_eq!(matrix.as_vec(), rows);
    assert_eq!(matrix.get_size(), MatrixSize::new(2, 2));
}

#[test]
fn clone_copies_the_grid() {
    let mut matrix = source_3x3();
    let copy = matrix.clone();
    matrix.set_element(MatrixIndex::new(0, 0), 100f32).unwrap();
    assert_eq!(copy.get_element(MatrixIndex::new(0, 0)), Ok(3f32));
    assert_eq!(matrix.get_element(MatrixIndex::new(0, 0)), Ok(100f32));
}

#[test]
fn matrix_size_pairs() {
    let size = MatrixSize::new(2, 3);
    assert_eq!(size.row, 2);
    assert_eq!(size.col, 3);
    assert!(MatrixSize::new(1, 2).strictly_less_than(&size));
    assert!(!MatrixSize::new(2, 2).strictly_less_than(&size));
    assert!(!MatrixSize::new(1, 3).strictly_less_than(&size));
    assert!(!MatrixSize::new(1, 5).strictly_less_than(&size));
    assert!(!size.strictly_less_than(&size));
    assert_eq!(MatrixIndex::new(1, 1) + MatrixSize::new(2, 2), MatrixSize::new(3, 3));
}

#[test]
fn scalar_operations_apply_to_every_element() {
    let matrix = Matrix::from_vec(vec![vec![1f32, 2f32], vec![3f32, 4f32]]).unwrap();
    assert_eq!(
        matrix.scalar_add(1.5f32, plus).unwrap().as_vec(),
        vec![vec![2.5f32, 3.5f32], vec![4.5f32, 5.5f32]]
    );
    assert_eq!(
        matrix.scalar_sub(1.5f32, minus).unwrap().as_vec(),
        vec![vec![-0.5f32, 0.5f32], vec![1.5f32, 2.5f32]]
    );
    assert_eq!(
        matrix.scalar_mul(-2f32, times).unwrap().as_vec(),
        vec![vec![-2f32, -4f32], vec![-6f32, -8f32]]
    );
    assert_eq!(
        matrix.scalar_div(2f32, divide).unwrap().as_vec(),
        vec![vec![0.5f32, 1f32], vec![1.5f32, 2f32]]
    );
}

#[test]
fn scalar_div_by_zero_is_no_error() {
    let matrix = Matrix::from_vec(vec![vec![1f32, -2f32, 0f32]]).unwrap();
    let divided = matrix.scalar_div(0f32, divide).unwrap().as_vec();
    assert_eq!(divided[0][0], f32::INFINITY);
    assert_eq!(divided[0][1], f32::NEG_INFINITY);
    assert!(divided[0][2].is_nan());
}

#[test]
fn negation_is_the_product_with_minus_one() {
    let matrix = Matrix::from_vec(vec![vec![1f32, -2f32], vec![0.5f32, 4f32]]).unwrap();
    assert_eq!(
        matrix.negation(-1f32, times).unwrap().as_vec(),
        vec![vec![-1f32, 2f32], vec![-0.5f32, -4f32]]
    );
}

#[test]
fn matrix_add_and_sub_work_element_by_element() {
    let left = Matrix::from_vec(vec![vec![1f32, 2f32], vec![3f32, 4f32]]).unwrap();
    let right = Matrix::from_vec(vec![vec![10f32, 20f32], vec![30f32, 45.5f32]]).unwrap();
    assert_eq!(
        left.matrix_add(&right, plus).unwrap().as_vec(),
        vec![vec![11f32, 22f32], vec![33f32, 49.5f32]]
    );
    assert_eq!(
        left.matrix_sub(&right, minus).unwrap().as_vec(),
        vec![vec![-9f32, -18f32], vec![-27f32, -41.5f32]]
    );
}

#[test]
fn matrix_add_and_sub_refuse_different_shapes() {
    let left = Matrix::from_vec(vec![vec![1f32, 2f32], vec![3f32, 4f32]]).unwrap();
    let wide = Matrix::from_vec(vec![vec![1f32, 2f32, 3f32], vec![4f32, 5f32, 6f32]]).unwrap();
    let tall = Matrix::from_vec(vec![vec![1f32, 2f32]]).unwrap();
    assert!(is_error(left.matrix_add(&wide, plus), MatrixError::IncompatibleSizeAddition));
    assert!(is_error(left.matrix_add(&tall, plus), MatrixError::IncompatibleSizeAddition));
    assert!(is_error(left.matrix_sub(&wide, minus), MatrixError::IncompatibleSizeAddition));
    assert!(is_error(left.matrix_sub(&tall, minus), MatrixError::IncompatibleSizeAddition));
}
