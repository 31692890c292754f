use rust_matrix::element::MatrixElement;
use rust_matrix::matrix::Matrix;

fn me(v: i64) -> MatrixElement {
    MatrixElement::new(v, 1).unwrap()
}

fn mef(n: i64, d: i64) -> MatrixElement {
    MatrixElement::new(n, d).unwrap()
}

#[test]
fn display() {
    assert_eq!(
        Matrix::new(vec![
            vec![me(1), me(2), me(3)],
            vec![me(4), me(5), me(6)],
        ])
        .to_display_string(),
        r"
┌               ┐
│   1   2   3   │
│   4   5   6   │
└               ┘
"
        .trim()
        .to_string()
    );
    assert_eq!(
        Matrix::new(vec![vec![me(1), me(2), me(3), me(4), me(5), me(6)]]).to_display_string(),
        r"
┌                           ┐
│   1   2   3   4   5   6   │
└                           ┘
"
        .trim()
        .to_string()
    );
    assert_eq!(
        Matrix::new(vec![
            vec![me(1)],
            vec![me(2)],
            vec![me(3)],
            vec![me(4)],
            vec![me(5)],
            vec![me(6)],
        ])
        .to_display_string(),
        r"
┌       ┐
│   1   │
│   2   │
│   3   │
│   4   │
│   5   │
│   6   │
└       ┘
"
        .trim()
        .to_string()
    );

    assert_eq!(
        Matrix::new(vec![
            vec![me(-1), me(2), me(-3), mef(1, 6)],
            vec![mef(1, 3), mef(-1, 4), mef(1, 5), me(-4)],
        ])
        .to_display_string(),
        r"
┌                                                      ┐
│  -1                  2     -3     0.16666666666667   │
│   0.33333333333333  -0.25   0.2  -4                  │
└                                                      ┘
"
        .trim()
        .to_string()
    );
    assert_eq!(
        Matrix::new(vec![
            vec![me(-39), me(-48)],
            vec![me(2), me(-3)],
            vec![me(-14), me(0)],
            vec![me(-38), me(15)],
        ])
        .to_display_string(),
        r"
┌             ┐
│  -39  -48   │
│   2   -3    │
│  -14   0    │
│  -38   15   │
└             ┘
"
        .trim()
        .to_string()
    );
}
