use rltk::mat::bitmat::SparseBitMat;
use rltk::mat::csr::CsrMat;
use rltk::mat::sparse::SparseMat;
use rltk::mat::{Mat, Shape};

#[test]
fn test_get_and_set() {
    let mut mat = SparseBitMat::new();
    mat.set(15, 15, true);
    assert_eq!(mat.get(0, 0), false); //untouched
    assert_eq!(mat.get(15, 15), true); //touched

    mat.set(15, 15, false);
    assert_eq!(mat.get(15, 15), false); //touched, set to false
    mat.set(1001, 1001, false);
    assert_eq!(mat.get(1001, 1001), false); //untouched, set to false
}

#[test]
fn test_i32() {
    let rows = vec![vec![1, 0, 0, 0], vec![2]];
    let new_mat: CsrMat<i32> = CsrMat::from(rows);
    assert_eq!(2, new_mat.get(1, 0));
    assert_eq!(0, new_mat.get(10, 0));
}

#[test]
fn sparse_set_and_get() {
    let mut mat: SparseMat<u32> = SparseMat::new();
    mat.set(10, 11, 7);
    assert_eq!(mat.get(10, 11), 7);
    assert_eq!(mat.get(11, 10), 0);
    assert_eq!(mat.shape(), Shape::new(11, 12));
    mat.set(10, 11, 9);
    assert_eq!(mat.get(10, 11), 9);
}

#[test]
fn sparse_empty_shape() {
    let mat: SparseMat<u8> = SparseMat::new();
    assert_eq!(mat.shape(), Shape::new(1, 1));
}

#[test]
fn csr_shape_and_zeroes() {
    let rows = vec![vec![0, 5], vec![0, 0, 3]];
    let m: CsrMat<i64> = CsrMat::from(rows);
    assert_eq!(m.get(0, 0), 0);
    assert_eq!(m.get(0, 1), 5);
    assert_eq!(m.get(1, 2), 3);
    let s = m.shape();
    assert_eq!(s, Shape::new(2, 3));
}
