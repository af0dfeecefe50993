use travelling_salesman::error::ShapeError;
use travelling_salesman::matrix::DistanceMatrix;
use travelling_salesman::matrix::MAX_DISTANCE;

fn square(entries: &[&[u64]]) -> Vec<Vec<u64>> {
    entries.iter().map(|r| r.to_vec()).collect()
}

#[test]
fn from_rows_accepts_square_input() {
    let m = DistanceMatrix::from_rows(square(&[&[0, 3], &[3, 0]])).unwrap();
    assert_eq!(m.n(), 2);
    assert_eq!(m.at(0, 0), 0);
    assert_eq!(m.at(0, 1), 3);
    assert_eq!(m.at(1, 0), 3);
    assert_eq!(m.at(1, 1), 0);
}

#[test]
fn from_rows_accepts_empty_input() {
    let m = DistanceMatrix::from_rows(Vec::new()).unwrap();
    assert_eq!(m.n(), 0);
}

#[test]
fn from_rows_rejects_ragged_input() {
    let res = DistanceMatrix::from_rows(square(&[&[0, 1], &[1]]));
    assert_eq!(res.unwrap_err(), ShapeError::NotSquare);
}

#[test]
fn from_rows_rejects_wide_input() {
    let res = DistanceMatrix::from_rows(square(&[&[0, 1, 2], &[1, 0, 2]]));
    assert_eq!(res.unwrap_err(), ShapeError::NotSquare);
}

#[test]
fn from_rows_rejects_oversized_entry() {
    let big = MAX_DISTANCE + 1;
    let res = DistanceMatrix::from_rows(square(&[&[0, big], &[big, 0]]));
    assert_eq!(res.unwrap_err(), ShapeError::TooLarge);
}

#[test]
fn from_rows_is_deterministic() {
    let rows: Vec<Vec<u64>> = vec![vec![0, 7, 2], vec![7, 0, 5], vec![2, 5, 0]];
    let a = DistanceMatrix::from_rows(rows.clone()).unwrap();
    let b = DistanceMatrix::from_rows(rows.clone()).unwrap();
    assert_eq!(a.n(), b.n());
    for i in 0..a.n() {
        for j in 0..a.n() {
            assert_eq!(a.at(i, j), b.at(i, j));
            assert_eq!(a.at(i, j), rows[i][j]);
        }
    }
}

#[test]
fn symmetry_test_distinguishes() {
    let sym = DistanceMatrix::from_rows(square(&[&[0, 2], &[2, 0]])).unwrap();
    assert!(sym.is_symmetric());
    let asym = DistanceMatrix::from_rows(square(&[&[0, 2], &[3, 0]])).unwrap();
    assert!(!asym.is_symmetric());
}

#[test]
fn shape_error_describes_itself() {
    assert_eq!(ShapeError::NotSquare.describe(), "distance matrix is not square");
    assert_eq!(ShapeError::TooLarge.describe(), "distance matrix is too large");
}
