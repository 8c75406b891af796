use greg::matrix::Matrix;
use greg::matrix::MatrixError;

#[test]
fn matrix_index() {
    let matrix = Matrix::from_rows(vec![vec![1, 2, 3], vec![1, 2, 3], vec![1, 2, 3]]);
    assert_eq!(3, *matrix.get(&[0, 2]).unwrap());
    assert_eq!(2, *matrix.get(&[1, 1]).unwrap());
    assert_eq!(1, *matrix.get(&[2, 0]).unwrap());
}

#[test]
fn matrix_push_dimension_default_0() {
    let mut matrix = Matrix::from_rows(vec![vec![1, 2, 3], vec![1, 2, 3], vec![1, 2, 3]]);
    matrix.push_dimension_default(0);
    assert_eq!(matrix.dimensions(), &[4, 3]);
    assert_eq!(matrix.into_elements(), vec![1, 2, 3, 1, 2, 3, 1, 2, 3, 0, 0, 0]);
}

#[test]
fn matrix_push_dimension_default_1() {
    let mut matrix = Matrix::from_rows(vec![vec![1, 2, 3], vec![1, 2, 3], vec![1, 2, 3]]);
    matrix.push_dimension_default(1);
    assert_eq!(matrix.dimensions(), &[3, 4]);
    assert_eq!(matrix.into_elements(), vec![1, 2, 3, 0, 1, 2, 3, 0, 1, 2, 3, 0]);
}

#[test]
fn matrix_push_dimension_default_2() {
    let mut matrix = Matrix::from_vec(vec![1, 2, 3, 4, 1, 2, 3, 4]).with_shape(&[2, 2, 2]).unwrap();
    matrix.push_dimension_default(1);
    assert_eq!(matrix.dimensions(), &[2, 3, 2]);
    assert_eq!(matrix.into_elements(), vec![1, 2, 3, 4, 0, 0, 1, 2, 3, 4, 0, 0]);
}

#[test]
fn matrix_push_dimension_default_3() {
    let mut matrix = Matrix::from_vec(vec![1, 2, 3, 4, 1, 2, 3, 4]).with_shape(&[2, 2, 2]).unwrap();
    matrix.push_dimension_default(2);
    assert_eq!(matrix.dimensions(), &[2, 2, 3]);
    assert_eq!(matrix.into_elements(), vec![1, 2, 0, 3, 4, 0, 1, 2, 0, 3, 4, 0]);
}

fn chars(s: &str) -> Vec<char> {
    s.chars().collect()
}

#[test]
fn from_rows_pads_ragged_input() {
    let matrix = Matrix::from_rows(vec![vec![chars("a"), chars("b")], vec![chars("c")]]);
    assert_eq!(matrix.dimensions(), &[2, 2]);
    assert_eq!(*matrix.get(&[0, 0]).unwrap(), chars("a"));
    assert_eq!(*matrix.get(&[0, 1]).unwrap(), chars("b"));
    assert_eq!(*matrix.get(&[1, 0]).unwrap(), chars("c"));
    assert_eq!(*matrix.get(&[1, 1]).unwrap(), chars(""));
}

#[test]
fn from_rows_no_rows() {
    let matrix: Matrix<i32> = Matrix::from_rows(vec![]);
    assert_eq!(matrix.dimensions(), &[0, 1]);
    assert_eq!(matrix.into_elements(), vec![]);
}

#[test]
fn reshape_round_trip_restores_contents() {
    let mut matrix = Matrix::from_vec(vec![1, 2, 3, 4, 5, 6]);
    assert_eq!(matrix.reshape(&[2, 3]), Ok(()));
    assert_eq!(matrix.dimensions(), &[2, 3]);
    assert_eq!(matrix.reshape(&[6]), Ok(()));
    assert_eq!(matrix.dimensions(), &[6]);
    assert_eq!(matrix.into_elements(), vec![1, 2, 3, 4, 5, 6]);
}

#[test]
fn reshape_mismatch_leaves_matrix_unchanged() {
    let mut matrix = Matrix::from_vec(vec![1, 2, 3, 4, 5, 6]);
    assert_eq!(matrix.reshape(&[4, 2]), Err(MatrixError::ShapeMismatch));
    assert_eq!(matrix.dimensions(), &[6]);
    assert_eq!(matrix.into_elements(), vec![1, 2, 3, 4, 5, 6]);
}

#[test]
fn with_shape_mismatch_is_refused() {
    let matrix = Matrix::from_vec(vec![1, 2, 3]);
    assert_eq!(
        matrix.with_shape(&[2, 2]).map(|m| m.into_elements()),
        Err(MatrixError::ShapeMismatch)
    );
}

#[test]
fn get_reports_rank_and_range_errors() {
    let matrix = Matrix::from_rows(vec![vec![1, 2], vec![3, 4]]);
    assert_eq!(matrix.get(&[0]), Err(MatrixError::RankMismatch));
    assert_eq!(matrix.get(&[0, 1, 0]), Err(MatrixError::RankMismatch));
    assert_eq!(matrix.get(&[2, 0]), Err(MatrixError::IndexOutOfRange));
    assert_eq!(matrix.get(&[0, 2]), Err(MatrixError::IndexOutOfRange));
    assert_eq!(matrix.get(&[1, 1]), Ok(&4));
}

#[test]
fn set_replaces_one_cell() {
    let mut matrix = Matrix::from_rows(vec![vec![1, 2], vec![3, 4]]);
    assert_eq!(matrix.set(&[1, 0], 9), Ok(()));
    assert_eq!(matrix.set(&[9, 9], 7), Err(MatrixError::IndexOutOfRange));
    assert_eq!(matrix.into_elements(), vec![1, 2, 9, 4]);
}

#[test]
fn offset_is_row_major() {
    let matrix = Matrix::from_vec(vec![0; 24]).with_shape(&[2, 3, 4]).unwrap();
    assert_eq!(matrix.offset(&[0, 0, 0]), 0);
    assert_eq!(matrix.offset(&[0, 0, 3]), 3);
    assert_eq!(matrix.offset(&[0, 2, 1]), 9);
    assert_eq!(matrix.offset(&[1, 1, 2]), 18);
}
