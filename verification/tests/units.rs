use rust_matrix::element::MatrixElement;
use rust_matrix::matrix::Matrix;
use rust_matrix::vector::Vector;
use rust_matrix::Error;
use std::cmp::Ordering;

fn me(v: i64) -> MatrixElement {
    MatrixElement::new(v, 1).unwrap()
}

fn mef(n: i64, d: i64) -> MatrixElement {
    MatrixElement::new(n, d).unwrap()
}

#[test]
fn element_basics() {
    assert!(MatrixElement::zero().is_zero());
    assert!(MatrixElement::one().is_one());
    assert!(MatrixElement::from_int(7).epsilon_equals(&me(7)));
    assert!(mef(2, -4).epsilon_equals(&mef(-1, 2)));
    assert!(me(3).negate().epsilon_equals(&me(-3)));
    assert!(me(-3).abs().epsilon_equals(&me(3)));
    assert!(me(3).inverse().epsilon_equals(&mef(1, 3)));
    assert!(mef(7, 2).trunc().epsilon_equals(&me(3)));
    assert!(mef(7, 2).fract().epsilon_equals(&mef(1, 2)));
    assert!(mef(-7, 2).trunc().epsilon_equals(&me(-3)));
    assert!(mef(-7, 2).fract().epsilon_equals(&mef(-1, 2)));
    assert!(me(4).is_integer());
    assert!(!me(4).is_float());
    assert!(mef(1, 2).is_float());
    assert!(me(2).is_positive());
    assert!(me(-2).is_negative());
    assert!(!me(0).is_positive());
    assert!(!me(0).is_negative());
}

#[test]
fn element_arithmetic() {
    assert!(mef(1, 2).add(mef(1, 3)).unwrap().epsilon_equals(&mef(5, 6)));
    assert!(mef(1, 2).sub(mef(1, 3)).unwrap().epsilon_equals(&mef(1, 6)));
    assert!(mef(2, 3).mul(mef(3, 4)).unwrap().epsilon_equals(&mef(1, 2)));
    assert!(mef(2, 3).div(mef(4, 3)).unwrap().epsilon_equals(&mef(1, 2)));

    let big = MatrixElement::new(999_999_999_999_937, 1).unwrap();
    assert!(big.mul(big).is_none());
    assert!(big.add(big).is_none());
}

#[test]
fn element_epsilon_family() {
    let a = me(3);
    let b = mef(3_000_000_000_000_02, 1_000_000_000_000_00);

    assert!(a.epsilon_equals(&b));
    assert_eq!(a.epsilon_cmp(&b), Ordering::Equal);
    assert_eq!(me(1).epsilon_cmp(&me(2)), Ordering::Less);
    assert_eq!(me(2).epsilon_cmp(&me(1)), Ordering::Greater);
    assert!(me(1).epsilon_lt(&me(2)));
    assert!(me(1).epsilon_le(&me(2)));
    assert!(me(1).epsilon_le(&me(1)));
    assert!(me(2).epsilon_gt(&me(1)));
    assert!(me(2).epsilon_ge(&me(1)));
    assert!(me(1).epsilon_ge(&me(1)));
    assert!(!me(1).epsilon_lt(&me(1)));
    assert!(mef(1, 100_000_000).is_zero());
    assert!(!mef(1, 1_000_000).is_zero());
}

#[test]
fn vector_operations() {
    let v = Vector::new(vec![me(1), me(2), me(-3)]);
    let w = Vector::new(vec![me(4), me(5), me(6)]);

    assert_eq!(v.len(), 3);
    assert!(!v.is_empty());
    assert!(Vector::new(vec![]).is_empty());
    assert!(Vector::zero(9).is_zero());
    assert!(!v.is_zero());

    assert!(v.negate().epsilon_equals(&Vector::new(vec![me(-1), me(-2), me(3)])));
    assert!(v
        .add(&w)
        .unwrap()
        .epsilon_equals(&Vector::new(vec![me(5), me(7), me(3)])));
    assert!(v
        .subtract(&w)
        .unwrap()
        .epsilon_equals(&Vector::new(vec![me(-3), me(-3), me(-9)])));
    assert!(v
        .scale(me(2))
        .unwrap()
        .epsilon_equals(&Vector::new(vec![me(2), me(4), me(-6)])));
    assert!(v.dot(&w).unwrap().epsilon_equals(&me(-4)));
}

#[test]
fn error_messages_name_the_operation() {
    let wide = Matrix::new(vec![vec![me(1), me(2)]]);
    let e = wide.assert_square("Only square matrices have determinants").unwrap_err();
    assert_eq!(e.message(), "Only square matrices have determinants");
    assert!(matches!(e, Error::ShouldBeSquare(_)));
}
