//! Rendering matrices as bordered text.
//!
//! Each element is rendered as decimal text: tolerant integers show
//! their integer part, other values show up to fourteen decimal places,
//! rounded, with trailing zeros removed.  Columns are padded to one
//! width, and the grid is framed with box-drawing characters.

use crate::element::{lemma_vals_index, MatrixElement};
use crate::matrix::{lemma_grid_index, Matrix};
use crate::rat::{eps_zero, rfract, sabs, Rat};
use vstd::prelude::*;
use vstd::string::StringExecFns;
use vstd::string::StrSliceExecFns;

verus! {

broadcast use lemma_vals_index, lemma_grid_index;

/// Numerator scale for fourteen decimal places.
pub const P14: i128 = 100_000_000_000_000;

/// The decimal digit character for a value between zero and nine.
pub open spec fn digit_char(d: int) -> char {
    if d == 0 {
        '0'
    } else if d == 1 {
        '1'
    } else if d == 2 {
        '2'
    } else if d == 3 {
        '3'
    } else if d == 4 {
        '4'
    } else if d == 5 {
        '5'
    } else if d == 6 {
        '6'
    } else if d == 7 {
        '7'
    } else if d == 8 {
        '8'
    } else {
        '9'
    }
}

/// The decimal digits of a nonnegative integer, most significant first.
pub open spec fn dec_digits(v: int) -> Seq<char>
    decreases v,
{
    if v < 10 {
        seq![digit_char(v)]
    } else {
        dec_digits(v / 10).push(digit_char(v % 10))
    }
}

/// The last `w` decimal digits of a nonnegative integer, zero-padded to
/// exactly `w` characters.
pub open spec fn padded_digits(v: int, w: int) -> Seq<char>
    decreases w,
{
    if w <= 0 {
        Seq::<char>::empty()
    } else {
        padded_digits(v / 10, w - 1).push(digit_char(v % 10))
    }
}

/// The sequence with its trailing `'0'` characters removed.
pub open spec fn trim_zeros(s: Seq<char>) -> Seq<char>
    decreases s.len(),
{
    if s.len() > 0 && s[s.len() - 1] == '0' {
        trim_zeros(s.drop_last())
    } else {
        s
    }
}

/// `k` space characters.
pub open spec fn spaces(k: int) -> Seq<char> {
    Seq::new(k as nat, |i: int| ' ')
}

/// Powers of ten.
pub open spec fn tenpow(k: int) -> int
    decreases k,
{
    if k <= 0 {
        1
    } else {
        10 * tenpow(k - 1)
    }
}

/// A number below the `k`-th power of ten has at most `k` digits.
pub proof fn lemma_dec_digits_len(v: int, k: int)
    requires
        0 <= v,
        v < tenpow(k),
        1 <= k,
    ensures
        dec_digits(v).len() <= k,
    decreases k,
{
    if v >= 10 {
        assert(tenpow(k) == 10 * tenpow(k - 1));
        if k == 1 {
            assert(tenpow(0) == 1);
        }
        vstd::arithmetic::div_mod::lemma_fundamental_div_mod(v, 10);
        assert(v / 10 < tenpow(k - 1));
        lemma_dec_digits_len(v / 10, k - 1);
    }
}

/// The text of one element: the integer part for tolerant integers;
/// otherwise the integer part, a point, and up to fourteen rounded
/// decimal places with trailing zeros removed.  The sign is carried
/// separately.
pub open spec fn elem_chars(v: Rat) -> Seq<char> {
    let mg = sabs(v.n);
    let q = mg / v.d;
    let r0 = mg % v.d;
    if eps_zero(rfract(v)) {
        dec_digits(q)
    } else {
        let fr = (r0 * (P14 as int) + v.d / 2) / v.d;
        if fr == P14 as int {
            dec_digits(q + 1) + seq!['.'] + trim_zeros(padded_digits(0, 14))
        } else {
            dec_digits(q) + seq!['.'] + trim_zeros(padded_digits(fr, 14))
        }
    }
}

/// One decimal digit as text.
fn digit_str(d: i128) -> (r: &'static str)
    requires
        0 <= d < 10,
    ensures
        r@ == seq![digit_char(d as int)],
{
    proof {
        reveal_strlit("0");
        reveal_strlit("1");
        reveal_strlit("2");
        reveal_strlit("3");
        reveal_strlit("4");
        reveal_strlit("5");
        reveal_strlit("6");
        reveal_strlit("7");
        reveal_strlit("8");
        reveal_strlit("9");
    }
    let r: &'static str = match d {
        0 => "0",
        1 => "1",
        2 => "2",
        3 => "3",
        4 => "4",
        5 => "5",
        6 => "6",
        7 => "7",
        8 => "8",
        _ => "9",
    };
    proof {
        assert(r@ =~= seq![digit_char(d as int)]);
    }
    r
}

/// The decimal digits of a nonnegative integer, most significant first.
fn digits_string(v: i128) -> (r: String)
    requires
        0 <= v,
    ensures
        r@ == dec_digits(v as int),
    decreases v,
{
    if v < 10 {
        digit_str(v).to_owned()
    } else {
        let mut s = digits_string(v / 10);
        s.append(digit_str(v % 10));
        proof {
            assert(s@ =~= dec_digits(v as int));
        }
        s
    }
}

/// The last `w` decimal digits of a nonnegative integer, zero-padded.
fn padded_string(v: i128, w: usize) -> (r: String)
    requires
        0 <= v,
    ensures
        r@ == padded_digits(v as int, w as int),
    decreases w,
{
    if w == 0 {
        let r = String::new();
        proof {
            assert(r@ =~= padded_digits(v as int, 0));
        }
        r
    } else {
        let mut s = padded_string(v / 10, w - 1);
        s.append(digit_str(v % 10));
        proof {
            assert(s@ =~= padded_digits(v as int, w as int));
        }
        s
    }
}

/// The text of one element, without its sign.
fn element_string(e: &MatrixElement) -> (r: String)
    requires
        e.wf(),
    ensures
        r@ == elem_chars(e@),
{
    proof {
        reveal_strlit(".");
    }
    let (num, den) = e.parts();
    let mg: i128 = if num < 0 {
        -num
    } else {
        num
    };
    let q = mg / den;
    let r0 = mg % den;
    if e.is_integer() {
        digits_string(q)
    } else {
        proof {
            crate::rat::lemma_abs_mul_le(r0 as int, P14 as int, e@.d, P14 as int);
        }
        let fr = (r0 * P14 + den / 2) / den;
        let (qq, fr2): (i128, i128) = if fr == P14 {
            (q + 1, 0)
        } else {
            (q, fr)
        };
        let ghost full = trim_zeros(padded_digits(fr2 as int, 14));
        let mut w: usize = 14;
        let mut fr3 = fr2;
        while w > 0 && fr3 % 10 == 0
            invariant
                0 <= fr3,
                w <= 14,
                trim_zeros(padded_digits(fr3 as int, w as int)) == full,
            decreases w,
        {
            proof {
                assert(padded_digits(fr3 as int, w as int).last() == digit_char(fr3 as int % 10));
                assert(padded_digits(fr3 as int, w as int).drop_last() =~= padded_digits(
                    (fr3 / 10) as int,
                    w as int - 1,
                ));
            }
            fr3 = fr3 / 10;
            w = w - 1;
        }
        proof {
            if w > 0 {
                assert(padded_digits(fr3 as int, w as int).last() == digit_char(fr3 as int % 10));
                assert(digit_char(fr3 as int % 10) != '0');
            }
            assert(trim_zeros(padded_digits(fr3 as int, w as int)) == padded_digits(
                fr3 as int,
                w as int,
            ));
        }
        let mut s = digits_string(qq);
        s.append(".");
        let tail = padded_string(fr3, w);
        s.append(tail.as_str());
        proof {
            assert(s@ =~= elem_chars(e@));
        }
        s
    }
}

/// One element prepared for rendering: its sign, and its text without
/// the sign.
#[derive(Debug)]
pub struct MatrixElementDisplay {
    /// True of strictly negative values.
    pub is_negative: bool,
    /// The rendered value, sign excluded.
    pub str: String,
}

impl MatrixElementDisplay {
    /// Renders one element.
    pub fn new(ele: MatrixElement) -> (r: Self)
        requires
            ele.wf(),
        ensures
            r.is_negative == (ele@.n < 0),
            r.str@ == elem_chars(ele@),
    {
        MatrixElementDisplay { is_negative: ele.is_negative(), str: element_string(&ele) }
    }
}

/// The widest rendered text among the first `k` entries.
pub open spec fn max_width(c: Seq<MatrixElementDisplay>, k: int) -> int
    decreases k,
{
    if k <= 0 {
        0
    } else {
        let rest = max_width(c, k - 1);
        if c[k - 1].str@.len() > rest {
            c[k - 1].str@.len() as int
        } else {
            rest
        }
    }
}

/// Pads every entry's text with trailing spaces to the width of the
/// widest one.
pub fn pad_strings(vec: Vec<MatrixElementDisplay>) -> (r: Vec<MatrixElementDisplay>)
    ensures
        r@.len() == vec@.len(),
        forall|i: int|
            0 <= i < vec@.len() ==> (#[trigger] r@[i]).is_negative == vec@[i].is_negative
                && r@[i].str@ == vec@[i].str@ + spaces(
                max_width(vec@, vec@.len() as int) - vec@[i].str@.len(),
            ),
{
    proof {
        reveal_strlit(" ");
    }
    let mut max_len: usize = 0;
    let mut i: usize = 0;
    while i < vec.len()
        invariant
            i <= vec@.len(),
            max_len as int == max_width(vec@, i as int),
        decreases vec@.len() - i,
    {
        let l = vec[i].str.as_str().unicode_len();
        if l > max_len {
            max_len = l;
        }
        i = i + 1;
    }
    proof {
        lemma_max_width_ge(vec@, vec@.len() as int);
    }
    let mut out: Vec<MatrixElementDisplay> = Vec::new();
    i = 0;
    while i < vec.len()
        invariant
            i <= vec@.len(),
            max_len as int == max_width(vec@, vec@.len() as int),
            forall|k: int|
                0 <= k < vec@.len() ==> max_width(vec@, vec@.len() as int) >= (
                #[trigger] vec@[k]).str@.len(),
            out@.len() == i,
            forall|k: int|
                0 <= k < i ==> (#[trigger] out@[k]).is_negative == vec@[k].is_negative
                    && out@[k].str@ == vec@[k].str@ + spaces(
                    max_width(vec@, vec@.len() as int) - vec@[k].str@.len(),
                ),
        decreases vec@.len() - i,
    {
        let mut s = vec[i].str.as_str().to_owned();
        let mut l = s.as_str().unicode_len();
        while l < max_len
            invariant
                l == s@.len(),
                l <= max_len,
                s@.len() >= vec@[i as int].str@.len(),
                i < vec@.len(),
                s@ == vec@[i as int].str@ + spaces(l - vec@[i as int].str@.len()),
            decreases max_len - l,
        {
            s.append(" ");
            proof {
                reveal_strlit(" ");
                assert(s@ =~= vec@[i as int].str@ + spaces(
                    s@.len() - vec@[i as int].str@.len(),
                ));
            }
            l = l + 1;
        }
        proof {
            assert(s@ == vec@[i as int].str@ + spaces(
                max_width(vec@, vec@.len() as int) - vec@[i as int].str@.len(),
            ));
        }
        out.push(MatrixElementDisplay { is_negative: vec[i].is_negative, str: s });
        i = i + 1;
    }
    out
}

/// The widest entry is at least as wide as each one.
pub proof fn lemma_max_width_ge(c: Seq<MatrixElementDisplay>, k: int)
    ensures
        forall|i: int| 0 <= i < k ==> max_width(c, k) >= (#[trigger] c[i]).str@.len(),
    decreases k,
{
    if k > 0 {
        lemma_max_width_ge(c, k - 1);
        assert forall|i: int| 0 <= i < k implies max_width(c, k) >= (#[trigger] c[i]).str@.len() by {
            if i < k - 1 {
                assert(max_width(c, k) >= max_width(c, k - 1));
            }
        }
    }
}

/// The width of column `j`: the widest rendered text among its first
/// `k` entries.
pub open spec fn colw(g: Seq<Seq<Rat>>, j: int, k: int) -> int
    decreases k,
{
    if k <= 0 {
        0
    } else {
        let rest = colw(g, j, k - 1);
        if elem_chars(g[k - 1][j]).len() > rest {
            elem_chars(g[k - 1][j]).len() as int
        } else {
            rest
        }
    }
}

/// The padded text of the entry at `(i, j)`.
pub open spec fn cell_text(g: Seq<Seq<Rat>>, i: int, j: int, m: int) -> Seq<char> {
    elem_chars(g[i][j]) + spaces(colw(g, j, m) - elem_chars(g[i][j]).len())
}

/// One rendered cell: three leading characters, the last a minus sign
/// for negative values, then the padded text.
pub open spec fn cell_chars(g: Seq<Seq<Rat>>, i: int, j: int, m: int) -> Seq<char> {
    (if g[i][j].n < 0 {
        spaces(2).push('-')
    } else {
        spaces(3)
    }) + cell_text(g, i, j, m)
}

/// The first `j` cells of row `i`, left to right.
pub open spec fn cells_prefix(g: Seq<Seq<Rat>>, i: int, j: int, m: int) -> Seq<char>
    decreases j,
{
    if j <= 0 {
        Seq::<char>::empty()
    } else {
        cells_prefix(g, i, j - 1, m) + cell_chars(g, i, j - 1, m)
    }
}

/// One rendered row line, with its side borders.
pub open spec fn row_line(g: Seq<Seq<Rat>>, i: int, m: int, n: int) -> Seq<char> {
    seq!['\u{2502}'] + cells_prefix(g, i, n, m) + spaces(3) + seq!['\u{2502}', '\n']
}

/// The first `k` rendered row lines.
pub open spec fn lines_prefix(g: Seq<Seq<Rat>>, k: int, m: int, n: int) -> Seq<char>
    decreases k,
{
    if k <= 0 {
        Seq::<char>::empty()
    } else {
        lines_prefix(g, k - 1, m, n) + row_line(g, k - 1, m, n)
    }
}

/// The inner width of the frame: each column's width plus three, over
/// the first `j` columns, plus three.
pub open spec fn frame_width(g: Seq<Seq<Rat>>, j: int, m: int) -> int
    decreases j,
{
    if j <= 0 {
        3
    } else {
        frame_width(g, j - 1, m) + colw(g, j - 1, m) + 3
    }
}

/// The whole rendered matrix: a top border, one line per row, and a
/// bottom border without a trailing newline.
pub open spec fn framed_chars(g: Seq<Seq<Rat>>, m: int, n: int) -> Seq<char> {
    seq!['\u{250c}'] + spaces(frame_width(g, n, m)) + seq!['\u{2510}', '\n'] + lines_prefix(
        g,
        m,
        m,
        n,
    ) + seq!['\u{2514}'] + spaces(frame_width(g, n, m)) + seq!['\u{2518}']
}

/// Zero-padded digits take exactly their width.
pub proof fn lemma_padded_len(v: int, w: int)
    requires
        w >= 0,
    ensures
        padded_digits(v, w).len() == w,
    decreases w,
{
    if w > 0 {
        lemma_padded_len(v / 10, w - 1);
    }
}

/// Trimming never grows a sequence.
pub proof fn lemma_trim_le(s: Seq<char>)
    ensures
        trim_zeros(s).len() <= s.len(),
    decreases s.len(),
{
    if s.len() > 0 && s[s.len() - 1] == '0' {
        lemma_trim_le(s.drop_last());
    }
}

/// A bounded element renders to at most 31 characters.
pub proof fn lemma_elem_chars_len(v: Rat)
    requires
        crate::rat::bounded(v),
    ensures
        elem_chars(v).len() <= 31,
{
    reveal_with_fuel(tenpow, 17);
    let mg = sabs(v.n);
    let q = mg / v.d;
    vstd::arithmetic::div_mod::lemma_fundamental_div_mod(mg, v.d);
    assert(0 <= q <= mg) by (nonlinear_arith)
        requires
            mg == v.d * q + mg % v.d,
            0 <= mg % v.d,
            v.d >= 1,
            mg >= 0,
    ;
    lemma_dec_digits_len(q, 16);
    lemma_dec_digits_len(q + 1, 16);
    if !eps_zero(rfract(v)) {
        let r0 = mg % v.d;
        let fr = (r0 * (P14 as int) + v.d / 2) / v.d;
        lemma_padded_len(0, 14);
        lemma_padded_len(fr, 14);
        lemma_trim_le(padded_digits(0, 14));
        lemma_trim_le(padded_digits(fr, 14));
    }
}

/// A column of bounded entries is at most 31 wide, and at least as wide
/// as each of its rendered entries.
pub proof fn lemma_colw_bounds(g: Seq<Seq<Rat>>, j: int, k: int)
    requires
        forall|i: int| 0 <= i < k ==> crate::rat::bounded(#[trigger] g[i][j]),
    ensures
        0 <= colw(g, j, k) <= 31,
        forall|i: int| 0 <= i < k ==> colw(g, j, k) >= elem_chars(#[trigger] g[i][j]).len(),
    decreases k,
{
    if k > 0 {
        lemma_colw_bounds(g, j, k - 1);
        lemma_elem_chars_len(g[k - 1][j]);
        assert forall|i: int| 0 <= i < k implies colw(g, j, k) >= elem_chars(
            #[trigger] g[i][j],
        ).len() by {
            if i < k - 1 {
                assert(colw(g, j, k) >= colw(g, j, k - 1));
            }
        }
    }
}

/// Rendered entries of one column share its width.
pub proof fn lemma_max_width_colw(c: Seq<MatrixElementDisplay>, g: Seq<Seq<Rat>>, j: int, k: int)
    requires
        forall|i: int| 0 <= i < k ==> (#[trigger] c[i]).str@ == elem_chars(g[i][j]),
    ensures
        max_width(c, k) == colw(g, j, k),
    decreases k,
{
    if k > 0 {
        lemma_max_width_colw(c, g, j, k - 1);
    }
}

/// A run of spaces.
fn spaces_string(k: usize) -> (r: String)
    ensures
        r@ == spaces(k as int),
{
    let mut s = String::new();
    let mut i: usize = 0;
    while i < k
        invariant
            i <= k,
            s@ == spaces(i as int),
        decreases k - i,
    {
        s.append(" ");
        proof {
            reveal_strlit(" ");
            assert(s@ =~= spaces(i + 1 as int));
        }
        i = i + 1;
    }
    s
}

impl Matrix {
    /// The matrix rendered as bordered text: one line per row between a
    /// top and a bottom border, each entry padded to its column's
    /// width, with a minus sign directly before negative values.
    pub fn to_display_string(&self) -> (r: String)
        requires
            self.wf(),
            self.cols_number < 16777216,
        ensures
            r@ == framed_chars(self@, self.rows_number as int, self.cols_number as int),
    {
        let m = self.rows_number;
        let n = self.cols_number;
        let mut cols: Vec<Vec<MatrixElementDisplay>> = Vec::new();
        let mut j: usize = 0;
        while j < n
            invariant
                self.wf(),
                m == self.rows_number,
                n == self.cols_number,
                j <= n,
                cols@.len() == j,
                forall|c: int| 0 <= c < j ==> (#[trigger] cols@[c])@.len() == m,
                forall|c: int, i: int|
                    0 <= c < j && 0 <= i < m ==> (#[trigger] cols@[c]@[i]).is_negative == (
                    self@[i][c].n < 0) && cols@[c]@[i].str@ == cell_text(self@, i, c, m as int),
            decreases n - j,
        {
            let mut raw: Vec<MatrixElementDisplay> = Vec::new();
            let mut i: usize = 0;
            while i < m
                invariant
                    self.wf(),
                    m == self.rows_number,
                    n == self.cols_number,
                    j < n,
                    i <= m,
                    raw@.len() == i,
                    forall|k: int|
                        0 <= k < i ==> (#[trigger] raw@[k]).is_negative == (self@[k][j as int].n
                            < 0) && raw@[k].str@ == elem_chars(self@[k][j as int]),
                decreases m - i,
            {
                let e = match self.get(i, j) {
                    Ok(e) => e,
                    Err(_) => unreached(),
                };
                raw.push(MatrixElementDisplay::new(e));
                i = i + 1;
            }
            proof {
                lemma_max_width_colw(raw@, self@, j as int, m as int);
                lemma_colw_bounds(self@, j as int, m as int);
            }
            let padded = pad_strings(raw);
            proof {
                assert forall|i: int| 0 <= i < m implies (#[trigger] padded@[i]).str@ == cell_text(
                    self@,
                    i,
                    j as int,
                    m as int,
                ) by {
                    assert(padded@[i].str@ == raw@[i].str@ + spaces(
                        max_width(raw@, m as int) - raw@[i].str@.len(),
                    ));
                }
            }
            cols.push(padded);
            j = j + 1;
        }
        let mut total: usize = 3;
        let mut j2: usize = 0;
        while j2 < n
            invariant
                self.wf(),
                m == self.rows_number,
                n == self.cols_number,
                n < 16777216,
                j2 <= n,
                cols@.len() == n,
                forall|c: int| 0 <= c < n ==> (#[trigger] cols@[c])@.len() == m,
                forall|c: int, i: int|
                    0 <= c < n && 0 <= i < m ==> (#[trigger] cols@[c]@[i]).is_negative == (
                    self@[i][c].n < 0) && cols@[c]@[i].str@ == cell_text(self@, i, c, m as int),
                total as int == frame_width(self@, j2 as int, m as int),
                total <= 3 + 34 * j2,
            decreases n - j2,
        {
            proof {
                lemma_colw_bounds(self@, j2 as int, m as int);
            }
            let wdt = cols[j2][0].str.as_str().unicode_len();
            proof {
                assert(cols@[j2 as int]@[0].str@ == cell_text(self@, 0, j2 as int, m as int));
                assert(wdt as int == colw(self@, j2 as int, m as int));
            }
            total = total + wdt + 3;
            j2 = j2 + 1;
        }
        let sp = spaces_string(total);
        let mut out = String::new();
        out.append("\u{250c}");
        out.append(sp.as_str());
        out.append("\u{2510}\n");
        proof {
            reveal_strlit("\u{250c}");
            reveal_strlit("\u{2510}\n");
            assert(out@ =~= seq!['\u{250c}'] + spaces(frame_width(self@, n as int, m as int))
                + seq!['\u{2510}', '\n']);
        }
        let ghost top = out@;
        let mut i: usize = 0;
        while i < m
            invariant
                self.wf(),
                m == self.rows_number,
                n == self.cols_number,
                i <= m,
                cols@.len() == n,
                forall|c: int| 0 <= c < n ==> (#[trigger] cols@[c])@.len() == m,
                forall|c: int, ii: int|
                    0 <= c < n && 0 <= ii < m ==> (#[trigger] cols@[c]@[ii]).is_negative == (
                    self@[ii][c].n < 0) && cols@[c]@[ii].str@ == cell_text(self@, ii, c, m as int),
                top == seq!['\u{250c}'] + spaces(frame_width(self@, n as int, m as int))
                    + seq!['\u{2510}', '\n'],
                sp@ == spaces(frame_width(self@, n as int, m as int)),
                out@ == top + lines_prefix(self@, i as int, m as int, n as int),
            decreases m - i,
        {
            out.append("\u{2502}");
            proof {
                reveal_strlit("\u{2502}");
            }
            let ghost line_start = out@;
            let mut j3: usize = 0;
            while j3 < n
                invariant
                    self.wf(),
                    m == self.rows_number,
                    n == self.cols_number,
                    i < m,
                    j3 <= n,
                    cols@.len() == n,
                    forall|c: int| 0 <= c < n ==> (#[trigger] cols@[c])@.len() == m,
                    forall|c: int, ii: int|
                        0 <= c < n && 0 <= ii < m ==> (#[trigger] cols@[c]@[ii]).is_negative == (
                        self@[ii][c].n < 0) && cols@[c]@[ii].str@ == cell_text(
                            self@,
                            ii,
                            c,
                            m as int,
                        ),
                    line_start == out@.take(line_start.len() as int),
                    out@ == line_start + cells_prefix(self@, i as int, j3 as int, m as int),
                decreases n - j3,
            {
                if cols[j3][i].is_negative {
                    out.append("  -");
                } else {
                    out.append("   ");
                }
                out.append(cols[j3][i].str.as_str());
                proof {
                    reveal_strlit("  -");
                    reveal_strlit("   ");
                    assert(out@ =~= line_start + cells_prefix(
                        self@,
                        i as int,
                        j3 + 1 as int,
                        m as int,
                    ));
                }
                j3 = j3 + 1;
            }
            out.append("   \u{2502}\n");
            proof {
                reveal_strlit("   \u{2502}\n");
                assert(out@ =~= top + lines_prefix(self@, i + 1 as int, m as int, n as int));
            }
            i = i + 1;
        }
        out.append("\u{2514}");
        out.append(sp.as_str());
        out.append("\u{2518}");
        proof {
            reveal_strlit("\u{2514}");
            reveal_strlit("\u{2518}");
            assert(out@ =~= framed_chars(self@, m as int, n as int));
        }
        out
    }
}

} // verus!
