use rust_matrix::element::MatrixElement;
use rust_matrix::matrix::Matrix;
use rust_matrix::vector::Vector;
use rust_matrix::Error;

fn me(v: i64) -> MatrixElement {
    MatrixElement::new(v, 1).unwrap()
}

#[test]
fn det_matches_row_echelon_diagonal() {
    let m = Matrix::new(vec![
        vec![me(2), me(1), me(-1)],
        vec![me(-3), me(-1), me(2)],
        vec![me(-2), me(1), me(2)],
    ]);

    let (echelon, swaps) = m.row_echelon().unwrap();
    let mut product = MatrixElement::one();
    for i in 0..3 {
        product = product.mul(echelon.get(i, i).unwrap()).unwrap();
    }
    let sign = if swaps % 2 == 0 { me(1) } else { me(-1) };
    let from_echelon = sign.mul(product).unwrap();

    assert!(m.det().unwrap().epsilon_equals(&from_echelon));
}

#[test]
fn lup_of_rectangular_example() {
    let m = Matrix::new(vec![
        vec![me(2), me(4), me(-1), me(5), me(-2)],
        vec![me(-4), me(-5), me(3), me(-8), me(1)],
        vec![me(2), me(-5), me(-4), me(1), me(8)],
        vec![me(-6), me(0), me(7), me(-3), me(1)],
    ]);

    let (l, u, p) = m.lup_decomposition().unwrap();

    assert!(p
        .multiply(&m)
        .unwrap()
        .epsilon_equals(&l.multiply(&u).unwrap()));

    for i in 0..4 {
        assert!(l.get(i, i).unwrap().is_one());
        for j in 0..4 {
            if j > i {
                assert!(l.get(i, j).unwrap().is_zero());
            }
        }
    }
    for i in 0..4 {
        for j in 0..i {
            assert!(u.get(i, j).unwrap().is_zero());
        }
    }
}

#[test]
fn lup_u_can_keep_entries_below_diagonal() {
    // The permutation is fixed against the original matrix, so a pivot
    // that elimination later zeroes can leave a nonzero entry below the
    // diagonal of U while the product identity still holds.
    let m = Matrix::new(vec![
        vec![me(1), me(1), me(0)],
        vec![me(1), me(1), me(1)],
        vec![me(1), me(0), me(0)],
    ]);
    let (l, u, p) = m.lup_decomposition().unwrap();
    assert!(p.multiply(&m).unwrap().epsilon_equals(&l.multiply(&u).unwrap()));
    assert!(!u.get(2, 1).unwrap().is_zero());
}

#[test]
fn double_inverse_returns() {
    let m = Matrix::new(vec![
        vec![me(4), me(7)],
        vec![me(2), me(6)],
    ]);

    let inv = m.inverse().unwrap();
    assert!(inv.inverse().unwrap().epsilon_equals(&m));
    assert!(m
        .multiply(&inv)
        .unwrap()
        .epsilon_equals(&Matrix::identity(2)));
}

#[test]
fn det_of_product() {
    let a = Matrix::new(vec![
        vec![me(1), me(4), me(0)],
        vec![me(2), me(-1), me(3)],
        vec![me(5), me(0), me(2)],
    ]);
    let b = Matrix::new(vec![
        vec![me(3), me(1), me(2)],
        vec![me(0), me(4), me(-2)],
        vec![me(1), me(1), me(1)],
    ]);

    let lhs = a.multiply(&b).unwrap().det().unwrap();
    let rhs = a.det().unwrap().mul(b.det().unwrap()).unwrap();
    assert!(lhs.epsilon_equals(&rhs));
}

#[test]
fn rref_is_idempotent() {
    let m = Matrix::new(vec![
        vec![me(0), me(3), me(-6), me(6), me(4), me(-5)],
        vec![me(3), me(-7), me(8), me(-5), me(8), me(9)],
        vec![me(3), me(-9), me(12), me(-9), me(6), me(15)],
    ]);

    let once = m.to_rref().unwrap();
    let twice = once.to_rref().unwrap();
    assert!(twice.epsilon_equals(&once));
}

#[test]
fn rref_apply_to_tracks_companion() {
    let m = Matrix::new(vec![
        vec![me(1), me(3), me(-6)],
        vec![me(3), me(-7), me(8)],
        vec![me(3), me(-9), me(12)],
    ]);

    let (reduced, applied) = m.to_rref_apply_to(Matrix::identity(3)).unwrap();
    assert!(reduced.epsilon_equals(&m.to_rref().unwrap()));
    assert!(applied.epsilon_equals(&m.inverse().unwrap()));
}

#[test]
fn rref_apply_to_rejects_mismatched_rows() {
    let m = Matrix::new(vec![
        vec![me(1), me(2)],
        vec![me(3), me(4)],
    ]);

    let e = m.to_rref_apply_to(Matrix::identity(3)).unwrap_err();
    assert!(matches!(e, Error::InvalidOperation(_)));
}

#[test]
fn error_variants() {
    let wide = Matrix::new(vec![vec![me(1), me(2), me(3)], vec![me(4), me(5), me(6)]]);

    assert!(matches!(wide.det().unwrap_err(), Error::ShouldBeSquare(_)));
    assert!(matches!(
        wide.assert_square("must be square").unwrap_err(),
        Error::ShouldBeSquare(_)
    ));
    assert!(matches!(wide.get(5, 0).unwrap_err(), Error::IndexOutOfBounds(_)));
    assert!(matches!(wide.get(0, 5).unwrap_err(), Error::IndexOutOfBounds(_)));

    let square = Matrix::new(vec![vec![me(1), me(2)], vec![me(3), me(4)]]);
    assert!(matches!(
        wide.add_s(&square).unwrap_err(),
        Error::InvalidOperation(_)
    ));

    let singular = Matrix::new(vec![vec![me(1), me(2)], vec![me(2), me(4)]]);
    assert!(matches!(
        singular.inverse().unwrap_err(),
        Error::InvalidOperation(_)
    ));
    assert!(!singular.can_be_inverted().unwrap());
}

#[test]
fn equivalence_by_rref() {
    let a = Matrix::new(vec![vec![me(1), me(2)], vec![me(3), me(4)]]);
    let b = Matrix::new(vec![vec![me(2), me(4)], vec![me(3), me(5)]]);
    let c = Matrix::new(vec![vec![me(1), me(2)], vec![me(2), me(4)]]);

    assert!(a.is_equivalent_to(&b).unwrap());
    assert!(!a.is_equivalent_to(&c).unwrap());
}

#[test]
fn minor_and_cofactor_values() {
    let m = Matrix::new(vec![
        vec![me(1), me(4), me(7)],
        vec![me(3), me(0), me(5)],
        vec![me(-1), me(9), me(11)],
    ]);

    assert!(m.get_minor(0, 0).unwrap().epsilon_equals(&me(-45)));
    assert!(m.get_cofactor(0, 0).unwrap().epsilon_equals(&me(-45)));
    assert!(m.get_cofactor(0, 1).unwrap().epsilon_equals(&me(-38)));
    assert!(m.get_cofactor_matrix().unwrap().epsilon_equals(&Matrix::new(vec![
        vec![me(-45), me(-38), me(27)],
        vec![me(19), me(18), me(-13)],
        vec![me(20), me(16), me(-12)],
    ])));
    assert!(matches!(
        m.get_minor(3, 0).unwrap_err(),
        Error::IndexOutOfBounds(_)
    ));
}

#[test]
fn from_cols_transposes() {
    let m = Matrix::from_cols(vec![
        Vector::new(vec![me(1), me(2), me(3)]),
        Vector::new(vec![me(4), me(5), me(6)]),
        Vector::new(vec![me(7), me(8), me(9)]),
    ]);

    assert!(m.epsilon_equals(&Matrix::new(vec![
        vec![me(1), me(4), me(7)],
        vec![me(2), me(5), me(8)],
        vec![me(3), me(6), me(9)],
    ])));
}

#[test]
fn zero_and_identity() {
    let z = Matrix::zero(3, 5);
    for i in 0..3 {
        for j in 0..5 {
            assert!(z.get(i, j).unwrap().is_zero());
        }
    }

    let id = Matrix::identity(4);
    for i in 0..4 {
        for j in 0..4 {
            assert_eq!(id.get(i, j).unwrap().is_one(), i == j);
            assert_eq!(id.get(i, j).unwrap().is_zero(), i != j);
        }
    }
}

#[test]
fn representation_overflow_is_an_error() {
    let big = MatrixElement::new(999_999_999_999_937, 1).unwrap();
    let m = Matrix::new(vec![
        vec![big, big],
        vec![big, big],
    ]);

    assert!(matches!(
        m.multiply(&m).unwrap_err(),
        Error::InvalidOperation(_)
    ));
}
