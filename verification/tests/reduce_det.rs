use rust_matrix::element::MatrixElement;
use rust_matrix::matrix::Matrix;

fn me(v: i64) -> MatrixElement {
    MatrixElement::new(v, 1).unwrap()
}

fn mef(n: i64, d: i64) -> MatrixElement {
    MatrixElement::new(n, d).unwrap()
}

#[test]
fn to_rref() {
    let m = Matrix::new(vec![
        vec![me(0), me(-3), me(-6), me(4), me(9)],
        vec![me(-1), me(-2), me(-1), me(3), me(1)],
        vec![me(-2), me(-3), me(0), me(3), me(-1)],
        vec![me(1), me(4), me(5), me(-9), me(-7)],
    ]);

    assert!(m.to_rref().unwrap().epsilon_equals(&Matrix::new(vec![
        vec![me(1), me(0), me(-3), me(0), me(5)],
        vec![me(0), me(1), me(2), me(0), me(-3)],
        vec![me(0), me(0), me(0), me(1), me(0)],
        vec![me(0), me(0), me(0), me(0), me(0)],
    ])));
}

#[test]
fn det() {
    let mut m1 = Matrix::new(vec![
        vec![me(3), me(-7), me(8), me(9), me(-6)],
        vec![me(0), me(2), me(-5), me(7), me(3)],
        vec![me(0), me(0), me(1), me(5), me(0)],
        vec![me(0), me(0), me(2), me(4), me(-1)],
        vec![me(0), me(0), me(0), me(-2), me(0)],
    ]);
    let m2 = Matrix::new(vec![
        vec![me(1), me(2), me(3), me(-1), mef(3, 10)],
        vec![me(0), me(1), me(4), me(9), mef(-35, 10)],
        vec![me(5), me(-6), me(0), me(0), me(7)],
        vec![me(5), me(9), me(0), me(0), me(-13)],
        vec![me(1), me(6), me(10), mef(5, 10), me(-1)],
    ]);

    let det_m1 = me(-12);
    let det_m2 = mef(-229125, 100);

    assert!(m1.det().unwrap().epsilon_equals(&det_m1));
    assert!(m1.transpose().det().unwrap().epsilon_equals(&det_m1));
    assert!(m1
        .inverse()
        .unwrap()
        .det()
        .unwrap()
        .epsilon_equals(&det_m1.inverse()));

    assert!(m2.det().unwrap().epsilon_equals(&det_m2));
    assert!(m1
        .multiply(&m2)
        .unwrap()
        .det()
        .unwrap()
        .epsilon_equals(&det_m1.mul(det_m2).unwrap()));

    m1.swap_rows(0, 1).unwrap();
    assert!(m1.det().unwrap().epsilon_equals(&det_m1.negate()));

    m1.swap_rows(2, 1).unwrap();
    assert!(m1.det().unwrap().epsilon_equals(&det_m1.negate().negate()));

    m1.scale_row(1, mef(1, 2)).unwrap();
    assert!(m1.det().unwrap().epsilon_equals(&det_m1.mul(mef(1, 2)).unwrap()));

    m1.scale_row(3, me(2)).unwrap();
    assert!(m1
        .det()
        .unwrap()
        .epsilon_equals(&det_m1.mul(mef(1, 2)).unwrap().mul(me(2)).unwrap()));

    m1.add_scaled_row_from_to(0, 1, me(2)).unwrap();
    assert!(m1.det().unwrap().epsilon_equals(&det_m1));

    m1.add_scaled_row_from_to(1, 2, me(3)).unwrap();
    assert!(m1.det().unwrap().epsilon_equals(&det_m1));
}

#[test]
fn det_not_square() {
    Matrix::new(vec![
        vec![me(1), me(2), me(3)],
        vec![me(4), me(5), me(6)],
    ])
    .det()
    .unwrap_err();
}

#[test]
fn inverse() {
    let m1 = Matrix::new(vec![
        vec![me(0), me(1), me(2)],
        vec![me(1), me(0), me(3)],
        vec![me(4), me(-3), me(8)],
    ]);

    assert!(m1.can_be_inverted().unwrap());
    assert!(m1.inverse().unwrap().epsilon_equals(&Matrix::new(vec![
        vec![mef(-45, 10), me(7), mef(-15, 10)],
        vec![me(-2), me(4), me(-1)],
        vec![mef(15, 10), me(-2), mef(5, 10)],
    ])));
    assert!(m1
        .scale(me(3))
        .unwrap()
        .inverse()
        .unwrap()
        .epsilon_equals(&m1.inverse().unwrap().scale(mef(1, 3)).unwrap()));
    assert!(m1.inverse().unwrap().inverse().unwrap().epsilon_equals(&m1));
    assert!(m1
        .transpose()
        .inverse()
        .unwrap()
        .epsilon_equals(&m1.inverse().unwrap().transpose()));
    assert!(m1
        .inverse()
        .unwrap()
        .multiply(&m1)
        .unwrap()
        .epsilon_equals(&Matrix::identity(m1.rows_number)));

    let m2 = Matrix::new(vec![
        vec![me(1), me(3), me(4)],
        vec![me(2), me(5), me(6)],
        vec![me(3), me(7), me(9)],
    ]);

    assert!(m1
        .inverse()
        .unwrap()
        .multiply(&m2.inverse().unwrap())
        .unwrap()
        .epsilon_equals(&m2.multiply(&m1).unwrap().inverse().unwrap()));
}

#[test]
fn inverse_unable() {
    let m = Matrix::new(vec![
        vec![me(1), me(3), me(4)],
        vec![me(2), me(5), me(6)],
        vec![me(3), me(7), me(8)],
    ]);

    m.inverse().unwrap_err();
}

#[test]
fn lu() {
    let m = Matrix::new(vec![
        vec![me(11), me(9), me(24), me(2)],
        vec![me(1), me(5), me(2), me(6)],
        vec![me(3), me(17), me(18), me(1)],
        vec![me(2), me(5), me(7), me(1)],
    ]);
    let (l, u, p) = m.lup_decomposition().unwrap();
    assert!(p
        .multiply(&m)
        .unwrap()
        .epsilon_equals(&l.multiply(&u).unwrap()));

    let m = Matrix::new(vec![
        vec![me(2), me(-4), me(-2), me(3)],
        vec![me(6), me(-9), me(-5), me(8)],
        vec![me(2), me(-7), me(-3), me(9)],
        vec![me(4), me(-2), me(-2), me(-1)],
        vec![me(-6), me(3), me(3), me(4)],
    ]);
    let (l, u, p) = m.lup_decomposition().unwrap();

    assert!(p
        .multiply(&m)
        .unwrap()
        .epsilon_equals(&l.multiply(&u).unwrap()));
}

#[test]
fn adj() {
    let m1 = Matrix::new(vec![
        vec![me(2), me(5), me(7)],
        vec![me(-3), me(6), me(-2)],
        vec![me(-8), mef(15, 10), me(9)],
    ]);
    let m2 = Matrix::new(vec![
        vec![me(1), me(9), mef(-25, 10)],
        vec![me(-15), me(7), me(-3)],
        vec![mef(-35, 10), mef(75, 10), me(10)],
    ]);

    assert!(m1
        .multiply(&m2)
        .unwrap()
        .adj()
        .unwrap()
        .epsilon_equals(&m2.adj().unwrap().multiply(&m1.adj().unwrap()).unwrap()));
}

#[test]
fn get_cofactor_matrix() {
    let m = Matrix::new(vec![
        vec![me(1), me(-3), me(7)],
        vec![mef(-5, 10), me(2), me(-1)],
        vec![me(3), me(-1), me(0)],
    ]);

    assert!(m.get_cofactor_matrix().unwrap().epsilon_equals(&Matrix::new(vec![
        vec![me(-1), me(-3), mef(-55, 10)],
        vec![me(-7), me(-21), me(-8)],
        vec![me(-11), mef(-25, 10), mef(5, 10)],
    ])));
}
