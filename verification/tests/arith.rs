use rust_matrix::element::MatrixElement;
use rust_matrix::matrix::Matrix;
use rust_matrix::vector::Vector;

fn me(v: i64) -> MatrixElement {
    MatrixElement::new(v, 1).unwrap()
}

fn mef(n: i64, d: i64) -> MatrixElement {
    MatrixElement::new(n, d).unwrap()
}

#[test]
fn add() {
    let m1 = Matrix::new(vec![
        vec![me(1), me(2), me(3)],
        vec![me(4), me(5), me(6)],
    ]);
    let m2 = Matrix::new(vec![
        vec![me(7), me(8), me(9)],
        vec![me(10), me(11), me(12)],
    ]);

    assert!(m1.add_s(&m2).unwrap().epsilon_equals(&Matrix::new(vec![
        vec![me(8), me(10), me(12)],
        vec![me(14), me(16), me(18)],
    ])));
}

#[test]
fn multiply() {
    let m1 = Matrix::new(vec![
        vec![mef(1, 10), me(2)],
        vec![me(3), me(-4)],
        vec![me(5), me(6)],
    ]);
    let m2 = Matrix::new(vec![
        vec![me(1), me(2), mef(13, 10)],
        vec![me(4), me(-5), me(6)],
    ]);

    assert!(m1.multiply(&m2).unwrap().epsilon_equals(&Matrix::new(vec![
        vec![mef(81, 10), mef(-98, 10), mef(1213, 100)],
        vec![me(-13), me(26), mef(-201, 10)],
        vec![me(29), me(-20), mef(425, 10)],
    ])));
    assert!(m2.multiply(&m1).unwrap().epsilon_equals(&Matrix::new(vec![
        vec![mef(126, 10), mef(18, 10)],
        vec![mef(154, 10), me(64)],
    ])));
}

#[test]
fn mul_to_unit() {
    let m = Matrix::new(vec![vec![me(1), me(2)], vec![me(3), me(4)]]);
    let i = Matrix::identity(2);

    assert!(m.multiply(&i).unwrap().epsilon_equals(&i.multiply(&m).unwrap()));
}

#[test]
fn mul_wrong_size() {
    let m1 = Matrix::new(vec![vec![me(1), me(2)], vec![me(3), me(4)]]);
    let m2 = Matrix::new(vec![
        vec![me(1), me(2)],
        vec![me(3), me(4)],
        vec![me(5), me(6)],
    ]);

    m1.multiply(&m2).unwrap_err();
}

#[test]
fn multiply_vector() {
    let matrix = Matrix::new(vec![
        vec![me(1), me(2)],
        vec![me(3), me(4)],
        vec![me(5), me(6)],
    ]);
    let vector = Vector::new(vec![me(1), me(2)]);
    assert!(matrix.multiply_vector(&vector).unwrap().epsilon_equals(&Vector::new(vec![
        me(5),
        me(11),
        me(17),
    ])));

    let matrix = Matrix::new(vec![
        vec![me(1), me(2), me(3)],
        vec![me(4), me(5), me(6)],
    ]);
    let vector = Vector::new(vec![me(1), me(2), me(3)]);
    assert!(matrix.multiply_vector(&vector).unwrap().epsilon_equals(&Vector::new(vec![
        me(14),
        me(32),
    ])));

    let matrix = Matrix::identity(3);
    let vector = Vector::new(vec![me(1), me(0), mef(34, 10)]);
    assert!(matrix.multiply_vector(&vector).unwrap().epsilon_equals(&vector));
}

#[test]
fn multiply_vector_with_wrong_length() {
    Matrix::new(vec![
        vec![me(1), me(2)],
        vec![me(3), me(4)],
        vec![me(5), me(6)],
    ])
    .multiply_vector(&Vector::new(vec![me(1), me(2), me(3)]))
    .unwrap_err();
}
