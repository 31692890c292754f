use rust_matrix::element::MatrixElement;
use rust_matrix::matrix::Matrix;
use rust_matrix::vector::Vector;

fn me(v: i64) -> MatrixElement {
    MatrixElement::new(v, 1).unwrap()
}

fn mef(n: i64, d: i64) -> MatrixElement {
    MatrixElement::new(n, d).unwrap()
}

fn m23() -> Matrix {
    Matrix::new(vec![
        vec![me(1), me(2), me(3)],
        vec![me(4), me(5), me(6)],
    ])
}

fn m33() -> Matrix {
    Matrix::new(vec![
        vec![me(1), me(2), me(3)],
        vec![me(4), me(5), me(6)],
        vec![me(7), me(8), me(9)],
    ])
}

#[test]
fn get() {
    let m = m33();

    assert!(m.get(0, 0).unwrap().epsilon_equals(&me(1)));
    assert!(m.get(0, 2).unwrap().epsilon_equals(&me(3)));
    assert!(m.get(1, 0).unwrap().epsilon_equals(&me(4)));
    assert!(m.get(1, 2).unwrap().epsilon_equals(&me(6)));
    assert!(m.get(2, 0).unwrap().epsilon_equals(&me(7)));
}

#[test]
fn get_row() {
    let m = m33();

    assert!(m.get_row(0).unwrap().epsilon_equals(&Vector::new(vec![me(1), me(2), me(3)])));
    assert!(m.get_row(1).unwrap().epsilon_equals(&Vector::new(vec![me(4), me(5), me(6)])));
    assert!(m.get_row(2).unwrap().epsilon_equals(&Vector::new(vec![me(7), me(8), me(9)])));
}

#[test]
fn get_col() {
    let m = m33();

    assert!(m.get_col(0).unwrap().epsilon_equals(&Vector::new(vec![me(1), me(4), me(7)])));
    assert!(m.get_col(1).unwrap().epsilon_equals(&Vector::new(vec![me(2), me(5), me(8)])));
    assert!(m.get_col(2).unwrap().epsilon_equals(&Vector::new(vec![me(3), me(6), me(9)])));
}

#[test]
fn set() {
    let mut m = m23();

    m.set(1, 1, me(10)).unwrap();
    m.set(0, 2, me(-12)).unwrap();

    assert!(m.epsilon_equals(&Matrix::new(vec![
        vec![me(1), me(2), me(-12)],
        vec![me(4), me(10), me(6)],
    ])));
}

#[test]
fn set_out_of_bounds() {
    let mut m = m23();

    m.set(2, 0, me(10)).unwrap_err();
}

#[test]
fn set_row() {
    let mut m = m23();

    m.set_row(1, Vector::new(vec![me(10), me(20), me(30)])).unwrap();

    assert!(m.epsilon_equals(&Matrix::new(vec![
        vec![me(1), me(2), me(3)],
        vec![me(10), me(20), me(30)],
    ])));
}

#[test]
fn set_row_diff_length() {
    let mut m = m23();

    m.set_row(1, Vector::new(vec![me(10), me(20)])).unwrap_err();
}

#[test]
fn set_col() {
    let mut m = m23();

    m.set_col(1, Vector::new(vec![me(10), me(20)])).unwrap();

    assert!(m.epsilon_equals(&Matrix::new(vec![
        vec![me(1), me(10), me(3)],
        vec![me(4), me(20), me(6)],
    ])));
}

#[test]
fn set_col_diff_length() {
    let mut m = m23();

    m.set_col(1, Vector::new(vec![me(10), me(20), me(30)])).unwrap_err();
}

#[test]
fn swap() {
    let mut m = m23();

    m.swap((0, 0), (1, 1)).unwrap();

    assert!(m.epsilon_equals(&Matrix::new(vec![
        vec![me(5), me(2), me(3)],
        vec![me(4), me(1), me(6)],
    ])));
}

#[test]
fn swap_out_of_bounds() {
    let mut m = m23();

    m.swap((0, 0), (2, 2)).unwrap_err();
}

#[test]
fn swap_rows() {
    let mut m = m23();

    m.swap_rows(0, 1).unwrap();

    assert!(m.epsilon_equals(&Matrix::new(vec![
        vec![me(4), me(5), me(6)],
        vec![me(1), me(2), me(3)],
    ])));
}

#[test]
fn swap_rows_out_of_bounds() {
    let mut m = m23();

    m.swap_rows(0, 2).unwrap_err();
}

#[test]
fn swap_cols() {
    let mut m = m23();

    m.swap_cols(0, 1).unwrap();

    assert!(m.epsilon_equals(&Matrix::new(vec![
        vec![me(2), me(1), me(3)],
        vec![me(5), me(4), me(6)],
    ])));
}

#[test]
fn swap_cols_out_of_bounds() {
    let mut m = m23();

    m.swap_cols(0, 4).unwrap_err();
}

#[test]
fn transpose() {
    let m = m23();

    let t = m.transpose();
    assert!(t.epsilon_equals(&Matrix::new(vec![
        vec![me(1), me(4)],
        vec![me(2), me(5)],
        vec![me(3), me(6)],
    ])));
    assert_eq!(t.rows_number, 3);
    assert_eq!(t.cols_number, 2);
}

#[test]
fn scale() {
    let m1 = Matrix::new(vec![vec![me(1), me(2)], vec![me(3), me(4)]]);
    let m2 = Matrix::new(vec![vec![me(2), me(4)], vec![me(6), me(8)]]);

    assert!(m1.epsilon_equals(&m2.scale(mef(1, 2)).unwrap()));
    assert!(m2.epsilon_equals(&m1.scale(me(2)).unwrap()));

    let halved = m2.scale(mef(1, 2)).unwrap();
    assert!(halved.epsilon_equals(&m1));
}

#[test]
fn add_row_from_to() {
    let mut m = m33();

    m.add_row_from_to(2, 0).unwrap();

    assert!(m.epsilon_equals(&Matrix::new(vec![
        vec![me(8), me(10), me(12)],
        vec![me(4), me(5), me(6)],
        vec![me(7), me(8), me(9)],
    ])));
}

#[test]
fn add_scaled_row_from_to() {
    let mut m = m33();

    m.add_scaled_row_from_to(0, 1, mef(1, 10)).unwrap();

    assert!(m.epsilon_equals(&Matrix::new(vec![
        vec![me(1), me(2), me(3)],
        vec![mef(41, 10), mef(52, 10), mef(63, 10)],
        vec![me(7), me(8), me(9)],
    ])));
}
