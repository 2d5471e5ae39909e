use vstd::prelude::*;
use vstd::std_specs::convert::FromSpec;
use vstd::std_specs::cmp::PartialEqSpec;
use vstd::std_specs::ops::{AddSpec, DivSpec, MulSpec, NegSpec, SubSpec};
use crate::matrix::{Matrix, ShapeMismatch};

verus! {

/// `(y(i, j) - t(i, j))^2`.
pub open spec fn sq_diff<T>(y: Seq<Seq<T>>, t: Seq<Seq<T>>, i: int, j: int) -> T where
    T: core::ops::Sub<Output = T> + core::ops::Mul<Output = T>,
 {
    let d = y[i][j].sub_spec(t[i][j]);
    d.mul_spec(d)
}

/// The sum of the first `n` squared differences of row `i` (`n >= 1`), from left to right.
pub open spec fn row_sq_sum<T>(y: Seq<Seq<T>>, t: Seq<Seq<T>>, i: int, n: int) -> T where
    T: core::ops::Add<Output = T> + core::ops::Sub<Output = T> + core::ops::Mul<Output = T>,
    decreases n,
 {
    if n <= 1 {
        sq_diff(y, t, i, 0)
    } else {
        row_sq_sum(y, t, i, n - 1).add_spec(sq_diff(y, t, i, n - 1))
    }
}

/// The sum of the row sums of the first `m` rows (`m >= 1`), each of `cols` entries.
pub open spec fn total_sq_sum<T>(y: Seq<Seq<T>>, t: Seq<Seq<T>>, cols: int, m: int) -> T where
    T: core::ops::Add<Output = T> + core::ops::Sub<Output = T> + core::ops::Mul<Output = T>,
    decreases m,
 {
    if m <= 1 {
        row_sq_sum(y, t, 0, cols)
    } else {
        total_sq_sum(y, t, cols, m - 1).add_spec(row_sq_sum(y, t, m - 1, cols))
    }
}

/// `+`, `-`, `*` and `/` follow their specifications, and so does the conversion of a
/// count.
pub open spec fn sq_ops_obey<T>() -> bool where
    T: core::ops::Add<Output = T> + core::ops::Sub<Output = T> + core::ops::Mul<
        Output = T,
    > + core::ops::Div<Output = T> + From<u32>,
 {
    T::obeys_add_spec() && T::obeys_sub_spec() && T::obeys_mul_spec() && T::obeys_div_spec()
        && T::obeys_from_spec()
}

/// Every operation of the mean squared error of `y` against `t` is defined on its
/// operands: each difference, each square, each partial sum, and the final quotient.
/// Where the operations do not follow their specifications the intermediate values are
/// unknown, and every product, sum and quotient must be defined.
pub open spec fn mse_defined<T>(y: Matrix<T>, t: Matrix<T>) -> bool where
    T: core::ops::Add<Output = T> + core::ops::Sub<Output = T> + core::ops::Mul<
        Output = T,
    > + core::ops::Div<Output = T> + From<u32>,
 {
    &&& forall|i: int, j: int|
        0 <= i < y.rows && 0 <= j < y.cols ==> #[trigger] y.entry(i, j).sub_req(t.entry(i, j))
    &&& sq_ops_obey::<T>() ==> {
        &&& forall|i: int, j: int|
            0 <= i < y.rows && 0 <= j < y.cols ==> {
                let d = #[trigger] y.entry(i, j).sub_spec(t.entry(i, j));
                d.mul_req(d)
            }
        &&& forall|i: int, n: int|
            0 <= i < y.rows && 1 <= n < y.cols ==> #[trigger] row_sq_sum(y@, t@, i, n).add_req(
                sq_diff(y@, t@, i, n),
            )
        &&& forall|m: int|
            1 <= m < y.rows ==> #[trigger] total_sq_sum(y@, t@, y.cols as int, m).add_req(
                row_sq_sum(y@, t@, m, y.cols as int),
            )
        &&& total_sq_sum(y@, t@, y.cols as int, y.rows as int).div_req(
            T::from_spec((y.rows * y.cols) as u32),
        )
    }
    &&& !sq_ops_obey::<T>() ==> {
        &&& forall|a: T, b: T| #[trigger] a.mul_req(b)
        &&& forall|a: T, b: T| #[trigger] a.add_req(b)
        &&& forall|a: T, b: T| #[trigger] a.div_req(b)
    }
}

/// The mean over all entries of `(y - t)^2`: the squares are summed row by row, the row
/// sums are added up, and the total is divided by the number of entries. Fails when
/// the shapes differ; a mean of no entries has no value, so `y` must not be empty when
/// the shapes agree.
#[verifier::loop_isolation(false)]
pub fn mean_squared_error<T>(y: &Matrix<T>, t: &Matrix<T>) -> (r: Result<T, ShapeMismatch>) where
    T: Copy + core::ops::Add<Output = T> + core::ops::Sub<Output = T> + core::ops::Mul<
        Output = T,
    > + core::ops::Div<Output = T> + From<u32>,
    requires
        y.wf(),
        t.wf(),
        y.rows == t.rows && y.cols == t.cols ==> {
            &&& y.rows > 0
            &&& y.cols > 0
            &&& y.rows * y.cols <= u32::MAX
            &&& mse_defined(*y, *t)
        },
    ensures
        r is Ok <==> y.rows == t.rows && y.cols == t.cols,
        r matches Ok(v) ==> sq_ops_obey::<T>() ==> v == total_sq_sum(
            y@,
            t@,
            y.cols as int,
            y.rows as int,
        ).div_spec(T::from_spec((y.rows * y.cols) as u32)),
{
    if y.rows != t.rows || y.cols != t.cols {
        return Err(ShapeMismatch);
    }
    let ghost obeys = sq_ops_obey::<T>();
    // `total` takes the first row's sum before it is read
    let mut total = y.data[0][0];
    let mut i: usize = 0;
    while i < y.rows
        invariant
            i <= y.rows,
            i > 0 && obeys ==> total == total_sq_sum(y@, t@, y.cols as int, i as int),
        decreases y.rows - i,
    {
        assert(y@[i as int] == y.data@[i as int]@ && t@[i as int] == t.data@[i as int]@);
        assert(y.entry(i as int, 0).sub_req(t.entry(i as int, 0)));
        let d0 = y.data[i][0] - t.data[i][0];
        proof {
            if obeys {
                assert(d0 == y.entry(i as int, 0).sub_spec(t.entry(i as int, 0)));
            }
        }
        let mut row = d0 * d0;
        let mut j: usize = 1;
        while j < y.cols
            invariant
                1 <= j <= y.cols,
                i < y.rows,
                y@[i as int] == y.data@[i as int]@ && t@[i as int] == t.data@[i as int]@,
                obeys ==> row == row_sq_sum(y@, t@, i as int, j as int),
            decreases y.cols - j,
        {
            assert(y.entry(i as int, j as int).sub_req(t.entry(i as int, j as int)));
            let d = y.data[i][j] - t.data[i][j];
            proof {
                if obeys {
                    assert(d == y.entry(i as int, j as int).sub_spec(t.entry(i as int, j as int)));
                    assert(row_sq_sum(y@, t@, i as int, j as int).add_req(
                        sq_diff(y@, t@, i as int, j as int),
                    ));
                }
            }
            let sq = d * d;
            row = row + sq;
            j = j + 1;
        }
        if i == 0 {
            total = row;
        } else {
            proof {
                if obeys {
                    assert(total_sq_sum(y@, t@, y.cols as int, i as int).add_req(
                        row_sq_sum(y@, t@, i as int, y.cols as int),
                    ));
                }
            }
            total = total + row;
        }
        i = i + 1;
    }
    assert(y.rows * y.cols <= u32::MAX);
    let count = (y.rows * y.cols) as u32;
    let n = T::from(count);
    Ok(total / n)
}

/// The mean squared error of an unsigned integer matrix with itself is zero: every
/// operation of it is defined, so `mean_squared_error(y, y)` may be called, and every
/// squared difference is zero, and so is every sum of them and their mean.
pub proof fn mean_squared_error_of_itself_is_zero(y: Matrix<u64>)
    requires
        y.wf(),
        y.rows > 0,
        y.cols > 0,
        y.rows * y.cols <= u32::MAX,
    ensures
        mse_defined(y, y),
        total_sq_sum(y@, y@, y.cols as int, y.rows as int).div_spec(
            u64::from_spec((y.rows * y.cols) as u32),
        ) == 0,
{
    lemma_total_sq_sum_of_itself(y@, y.cols as int, y.rows as int);
    assert(y.rows * y.cols > 0) by (nonlinear_arith)
        requires
            y.rows > 0,
            y.cols > 0,
    ;
    assert forall|i: int, n: int| 0 <= i < y.rows && 1 <= n < y.cols implies #[trigger] row_sq_sum(
        y@,
        y@,
        i,
        n,
    ).add_req(sq_diff(y@, y@, i, n)) by {
        lemma_row_sq_sum_of_itself(y@, i, n);
        lemma_row_sq_sum_of_itself(y@, i, n + 1);
    }
    assert forall|m: int| 1 <= m < y.rows implies #[trigger] total_sq_sum(
        y@,
        y@,
        y.cols as int,
        m,
    ).add_req(row_sq_sum(y@, y@, m, y.cols as int)) by {
        lemma_total_sq_sum_of_itself(y@, y.cols as int, m);
        lemma_row_sq_sum_of_itself(y@, m, y.cols as int);
    }
    assert(sq_ops_obey::<u64>());
    assert forall|i: int, j: int| 0 <= i < y.rows && 0 <= j < y.cols implies {
        let d = #[trigger] y.entry(i, j).sub_spec(y.entry(i, j));
        &&& y.entry(i, j).sub_req(y.entry(i, j))
        &&& d.mul_req(d)
    } by {
        let a = y.entry(i, j);
        assert(a.sub_spec(a) == 0u64);
    }
    assert(u64::from_spec((y.rows * y.cols) as u32) != 0);
}

proof fn lemma_row_sq_sum_of_itself(y: Seq<Seq<u64>>, i: int, n: int)
    ensures
        row_sq_sum(y, y, i, n) == 0,
    decreases n,
{
    let a = y[i][n - 1];
    assert(a.sub_spec(a) == 0u64);
    assert(sq_diff(y, y, i, n - 1) == 0);
    if n > 1 {
        lemma_row_sq_sum_of_itself(y, i, n - 1);
    }
}

proof fn lemma_total_sq_sum_of_itself(y: Seq<Seq<u64>>, cols: int, m: int)
    ensures
        total_sq_sum(y, y, cols, m) == 0,
    decreases m,
{
    lemma_row_sq_sum_of_itself(y, 0, cols);
    if m > 1 {
        lemma_total_sq_sum_of_itself(y, cols, m - 1);
        lemma_row_sq_sum_of_itself(y, m - 1, cols);
    }
}

/// `zero` plus the first `n` products `t(i, j) * l(i, j)` of row `i`, added from left
/// to right.
pub open spec fn row_dot<T>(zero: T, t: Seq<Seq<T>>, l: Seq<Seq<T>>, i: int, n: int) -> T where
    T: core::ops::Add<Output = T> + core::ops::Mul<Output = T>,
    decreases n,
 {
    if n <= 0 {
        zero
    } else {
        row_dot(zero, t, l, i, n - 1).add_spec(t[i][n - 1].mul_spec(l[i][n - 1]))
    }
}

/// The sum of `row_dot` over the first `m` rows (`m >= 1`), each of `cols` entries.
pub open spec fn total_dot<T>(zero: T, t: Seq<Seq<T>>, l: Seq<Seq<T>>, cols: int, m: int) -> T where
    T: core::ops::Add<Output = T> + core::ops::Mul<Output = T>,
    decreases m,
 {
    if m <= 1 {
        row_dot(zero, t, l, 0, cols)
    } else {
        total_dot(zero, t, l, cols, m - 1).add_spec(row_dot(zero, t, l, m - 1, cols))
    }
}

/// `l` holds `ln(y + delta)` entry by entry: `s` is `y` with `delta` added to every
/// entry, and `l` is `ln` applied to every entry of `s`.
pub open spec fn is_log_of_shifted<T, L>(ln: L, y: Matrix<T>, delta: T, s: Matrix<T>, l: Matrix<T>) -> bool where
    T: core::ops::Add<Output = T>,
    L: Fn(T) -> T,
 {
    &&& s.wf() && s.rows == y.rows && s.cols == y.cols
    &&& l.wf() && l.rows == y.rows && l.cols == y.cols
    &&& T::obeys_add_spec() ==> forall|i: int, j: int|
        0 <= i < y.rows && 0 <= j < y.cols ==> #[trigger] s.entry(i, j) == y.entry(i, j).add_spec(
            delta,
        )
    &&& forall|i: int, j: int|
        0 <= i < y.rows && 0 <= j < y.cols ==> ln.ensures((s.entry(i, j),), #[trigger] l.entry(i, j))
}

/// `+`, `*`, `/` and negation follow their specifications, and so does the conversion
/// of a count.
pub open spec fn entropy_ops_obey<T>() -> bool where
    T: core::ops::Add<Output = T> + core::ops::Mul<Output = T> + core::ops::Div<
        Output = T,
    > + core::ops::Neg<Output = T> + From<u32>,
 {
    T::obeys_add_spec() && T::obeys_mul_spec() && T::obeys_div_spec() && T::obeys_neg_spec()
        && T::obeys_from_spec()
}

/// `l` holds, for every entry of `y`, a value that `ln` may give on `y(i, j) + delta`.
pub open spec fn logs_of<T, L>(ln: L, y: Matrix<T>, delta: T, l: Seq<Seq<T>>) -> bool where
    T: core::ops::Add<Output = T>,
    L: Fn(T) -> T,
 {
    &&& l.len() == y.rows
    &&& forall|i: int| 0 <= i < y.rows ==> (#[trigger] l[i]).len() == y.cols
    &&& forall|i: int, j: int|
        0 <= i < y.rows && 0 <= j < y.cols ==> ln.ensures(
            (y.entry(i, j).add_spec(delta),),
            #[trigger] l[i][j],
        )
}

/// `ln` accepts every shifted entry `y(i, j) + delta`, which is defined.
pub open spec fn shifted_logs_defined<T, L>(ln: L, y: Matrix<T>, delta: T) -> bool where
    T: core::ops::Add<Output = T>,
    L: Fn(T) -> T,
 {
    &&& forall|i: int, j: int|
        0 <= i < y.rows && 0 <= j < y.cols ==> #[trigger] y.entry(i, j).add_req(delta)
    &&& T::obeys_add_spec() ==> forall|i: int, j: int|
        0 <= i < y.rows && 0 <= j < y.cols ==> ln.requires((#[trigger] y.entry(i, j).add_spec(delta),))
    &&& !T::obeys_add_spec() ==> forall|v: T| #[trigger] ln.requires((v,))
}

/// Every operation of the cross-entropy error is defined on its operands, whatever
/// values `ln` gives: each product, each partial sum, the quotient by the number of
/// rows, and its negation. Where the operations do not follow their specifications
/// every product, sum, quotient and negation must be defined.
pub open spec fn entropy_defined<T, L>(ln: L, y: Matrix<T>, t: Matrix<T>, delta: T) -> bool where
    T: core::ops::Add<Output = T> + core::ops::Mul<Output = T> + core::ops::Div<
        Output = T,
    > + core::ops::Neg<Output = T> + From<u32>,
    L: Fn(T) -> T,
 {
    let zero = T::from_spec(0u32);
    &&& shifted_logs_defined(ln, y, delta)
    &&& entropy_ops_obey::<T>() ==> forall|l: Seq<Seq<T>>| #[trigger]
        logs_of(ln, y, delta, l) ==> {
            &&& forall|i: int, j: int|
                0 <= i < y.rows && 0 <= j < y.cols ==> #[trigger] t@[i][j].mul_req(l[i][j])
            &&& forall|i: int, n: int|
                0 <= i < y.rows && 0 <= n < y.cols ==> #[trigger] row_dot(zero, t@, l, i, n).add_req(
                    t@[i][n].mul_spec(l[i][n]),
                )
            &&& forall|m: int|
                1 <= m < y.rows ==> #[trigger] total_dot(zero, t@, l, y.cols as int, m).add_req(
                    row_dot(zero, t@, l, m, y.cols as int),
                )
            &&& total_dot(zero, t@, l, y.cols as int, y.rows as int).div_req(
                T::from_spec(y.rows as u32),
            )
            &&& total_dot(zero, t@, l, y.cols as int, y.rows as int).div_spec(
                T::from_spec(y.rows as u32),
            ).neg_req()
        }
    &&& !entropy_ops_obey::<T>() ==> {
        &&& forall|a: T, b: T| #[trigger] a.add_req(b)
        &&& forall|a: T, b: T| #[trigger] a.mul_req(b)
        &&& forall|a: T, b: T| #[trigger] a.div_req(b)
        &&& forall|a: T| #[trigger] a.neg_req()
    }
}

/// The cross-entropy error `-mean over rows of (sum over columns of t * ln(y + delta))`;
/// `delta` keeps `ln` away from 0. Fails when the shapes differ; a mean of no rows has
/// no value, so `y` must have a row when the shapes agree.
#[verifier::loop_isolation(false)]
pub fn cross_entropy_error<T, L>(y: &Matrix<T>, t: &Matrix<T>, ln: L, delta: T) -> (r: Result<
    T,
    ShapeMismatch,
>) where
    T: Copy + core::ops::Add<Output = T> + core::ops::Mul<Output = T> + core::ops::Div<
        Output = T,
    > + core::ops::Neg<Output = T> + From<u32>,
    L: Fn(T) -> T,
    requires
        y.wf(),
        t.wf(),
        y.rows == t.rows && y.cols == t.cols ==> {
            &&& y.rows > 0
            &&& y.rows <= u32::MAX
            &&& entropy_defined(ln, *y, *t, delta)
        },
    ensures
        r is Ok <==> y.rows == t.rows && y.cols == t.cols,
        r matches Ok(v) ==> exists|s: Matrix<T>, l: Matrix<T>|
            {
                &&& #[trigger] is_log_of_shifted(ln, *y, delta, s, l)
                &&& (T::obeys_add_spec() && T::obeys_mul_spec() && T::obeys_div_spec()
                    && T::obeys_neg_spec() && T::obeys_from_spec()) ==> v == total_dot(
                    T::from_spec(0u32),
                    t@,
                    l@,
                    y.cols as int,
                    y.rows as int,
                ).div_spec(T::from_spec(y.rows as u32)).neg_spec()
            },
{
    if y.rows != t.rows || y.cols != t.cols {
        return Err(ShapeMismatch);
    }
    let shift = |v: T| -> (w: T)
        requires
            v.add_req(delta),
        ensures
            T::obeys_add_spec() ==> w == v.add_spec(delta),
        { v + delta };
    let s = y.map(shift);
    let l = s.map(&ln);
    let zero = T::from(0u32);
    let ghost obeys = entropy_ops_obey::<T>();
    proof {
        if obeys {
            assert forall|i: int| 0 <= i < y.rows implies (#[trigger] l@[i]).len() == y.cols by {
                assert(l@[i] == l.data@[i]@);
            }
            assert forall|i: int, j: int| 0 <= i < y.rows && 0 <= j < y.cols implies ln.ensures(
                (y.entry(i, j).add_spec(delta),),
                #[trigger] l@[i][j],
            ) by {
                assert(l@[i] == l.data@[i]@);
                assert(ln.ensures((s.entry(i, j),), l.entry(i, j)));
            }
            assert(logs_of(ln, *y, delta, l@));
        }
    }
    // `total` takes the first row's sum before it is read
    let mut total = zero;
    let mut i: usize = 0;
    while i < y.rows
        invariant
            i <= y.rows,
            obeys ==> zero == T::from_spec(0u32),
            i > 0 && obeys ==> total == total_dot(zero, t@, l@, y.cols as int, i as int),
        decreases y.rows - i,
    {
        assert(t@[i as int] == t.data@[i as int]@ && l@[i as int] == l.data@[i as int]@);
        let mut row = zero;
        let mut j: usize = 0;
        while j < y.cols
            invariant
                j <= y.cols,
                i < y.rows,
                t@[i as int] == t.data@[i as int]@ && l@[i as int] == l.data@[i as int]@,
                obeys ==> row == row_dot(zero, t@, l@, i as int, j as int),
            decreases y.cols - j,
        {
            proof {
                if obeys {
                    assert(t@[i as int][j as int].mul_req(l@[i as int][j as int]));
                    assert(row_dot(zero, t@, l@, i as int, j as int).add_req(
                        t@[i as int][j as int].mul_spec(l@[i as int][j as int]),
                    ));
                }
            }
            let p = t.data[i][j] * l.data[i][j];
            row = row + p;
            j = j + 1;
        }
        if i == 0 {
            total = row;
        } else {
            proof {
                if obeys {
                    assert(total_dot(zero, t@, l@, y.cols as int, i as int).add_req(
                        row_dot(zero, t@, l@, i as int, y.cols as int),
                    ));
                }
            }
            total = total + row;
        }
        i = i + 1;
    }
    let n = T::from(y.rows as u32);
    let mean = total / n;
    let v = core::ops::Neg::neg(mean);
    assert(is_log_of_shifted(ln, *y, delta, s, l));
    Ok(v)
}

/// The running sum through the first `n` entries of row `i`, starting from `acc`: each
/// entry where `taken` holds adds the matching entry of `l`.
pub open spec fn picked_row_sum<T: core::ops::Add<Output = T>>(
    acc: T,
    taken: Seq<Seq<bool>>,
    l: Seq<Seq<T>>,
    i: int,
    n: int,
) -> T
    decreases n,
{
    if n <= 0 {
        acc
    } else {
        let a = picked_row_sum(acc, taken, l, i, n - 1);
        if taken[i][n - 1] {
            a.add_spec(l[i][n - 1])
        } else {
            a
        }
    }
}

/// The running sum from `zero` through the first `m` rows of `cols` entries each, row
/// by row, as `picked_row_sum` adds.
pub open spec fn picked_sum<T: core::ops::Add<Output = T>>(
    zero: T,
    taken: Seq<Seq<bool>>,
    l: Seq<Seq<T>>,
    cols: int,
    m: int,
) -> T
    decreases m,
{
    if m <= 0 {
        zero
    } else {
        picked_row_sum(picked_sum(zero, taken, l, cols, m - 1), taken, l, m - 1, cols)
    }
}

/// How the one-hot cross-entropy visits `y` and `t`: `taken(i, j)` is whether `t(i, j)`
/// equals 1, and where it does, `s(i, j)` is `y(i, j) + delta` and `l(i, j)` is what
/// `ln` gives on it.
pub open spec fn one_hot_steps<T, L>(
    ln: L,
    y: Matrix<T>,
    t: Matrix<T>,
    delta: T,
    taken: Seq<Seq<bool>>,
    s: Seq<Seq<T>>,
    l: Seq<Seq<T>>,
) -> bool where T: core::ops::Add<Output = T> + PartialEq + From<u32>, L: Fn(T) -> T {
    &&& taken.len() == y.rows && s.len() == y.rows && l.len() == y.rows
    &&& forall|i: int|
        0 <= i < y.rows ==> (#[trigger] taken[i]).len() == y.cols && s[i].len() == y.cols
            && l[i].len() == y.cols
    &&& (T::obeys_eq_spec() && T::obeys_from_spec()) ==> forall|i: int, j: int|
        0 <= i < y.rows && 0 <= j < y.cols ==> #[trigger] taken[i][j] == t.entry(i, j).eq_spec(
            &T::from_spec(1u32),
        )
    &&& forall|i: int, j: int|
        0 <= i < y.rows && 0 <= j < y.cols && #[trigger] taken[i][j] ==> {
            &&& T::obeys_add_spec() ==> s[i][j] == y.entry(i, j).add_spec(delta)
            &&& ln.ensures((s[i][j],), l[i][j])
        }
}

/// Row `i` of `t` holds 1 at column `k` and 0 everywhere else.
pub open spec fn one_hot_at<T: From<u32>>(t: Matrix<T>, i: int, k: int) -> bool {
    &&& 0 <= k < t.cols
    &&& forall|j: int|
        0 <= j < t.cols ==> #[trigger] t.entry(i, j) == (if j == k {
            T::from_spec(1u32)
        } else {
            T::from_spec(0u32)
        })
}

/// Row `i` of `t` is one-hot: one entry is 1 and all the others are 0.
pub open spec fn one_hot_row<T: From<u32>>(t: Matrix<T>, i: int) -> bool {
    exists|k: int| #[trigger] one_hot_at(t, i, k)
}

/// Every row of `t` is one-hot.
pub open spec fn one_hot_rows<T: From<u32>>(t: Matrix<T>) -> bool {
    forall|i: int| 0 <= i < t.rows ==> #[trigger] one_hot_row(t, i)
}

/// `taken` and `l` record the visit of the one-hot cross-entropy up to entry `(i, j)`
/// (rows before `i` whole, then the first `j` entries of row `i`): `taken` is whether
/// `t` is 1 there, and where it is, `l` is a value that `ln` may give on `y + delta`.
pub open spec fn one_hot_prefix<T, L>(
    ln: L,
    y: Matrix<T>,
    t: Matrix<T>,
    delta: T,
    taken: Seq<Seq<bool>>,
    l: Seq<Seq<T>>,
    i: int,
    j: int,
) -> bool where T: core::ops::Add<Output = T> + PartialEq + From<u32>, L: Fn(T) -> T {
    &&& 0 <= i < y.rows && 0 <= j <= y.cols
    &&& taken.len() == i + 1 && l.len() == i + 1
    &&& forall|k: int| 0 <= k < i ==> (#[trigger] taken[k]).len() == y.cols && l[k].len() == y.cols
    &&& taken[i].len() == j && l[i].len() == j
    &&& (T::obeys_eq_spec() && T::obeys_from_spec()) ==> forall|k: int, q: int|
        (0 <= k < i && 0 <= q < y.cols || k == i && 0 <= q < j) ==> #[trigger] taken[k][q]
            == t.entry(k, q).eq_spec(&T::from_spec(1u32))
    &&& forall|k: int, q: int|
        (0 <= k < i && 0 <= q < y.cols || k == i && 0 <= q < j) && #[trigger] taken[k][q]
            ==> ln.ensures((y.entry(k, q).add_spec(delta),), l[k][q])
}

/// Every operation of the one-hot cross-entropy is defined on its operands, whatever
/// values `ln` gives: each step of the running sum, its negation, and the quotient by
/// the number of rows. Where the operations do not follow their specifications every
/// sum, negation and quotient must be defined.
pub open spec fn one_hot_defined<T, L>(ln: L, y: Matrix<T>, t: Matrix<T>, delta: T) -> bool where
    T: core::ops::Add<Output = T> + core::ops::Mul<Output = T> + core::ops::Div<
        Output = T,
    > + core::ops::Neg<Output = T> + PartialEq + From<u32>,
    L: Fn(T) -> T,
 {
    let zero = T::from_spec(0u32);
    &&& shifted_logs_defined(ln, y, delta)
    &&& entropy_ops_obey::<T>() ==> forall|taken: Seq<Seq<bool>>, l: Seq<Seq<T>>, i: int, j: int, lv: T|
        #![trigger one_hot_prefix(ln, y, t, delta, taken, l, i, j), ln.ensures((y.entry(i, j).add_spec(delta),), lv)]
        one_hot_prefix(ln, y, t, delta, taken, l, i, j) && j < y.cols && ln.ensures(
            (y.entry(i, j).add_spec(delta),),
            lv,
        ) ==> picked_row_sum(picked_sum(zero, taken, l, y.cols as int, i), taken, l, i, j).add_req(
            lv,
        )
    &&& entropy_ops_obey::<T>() ==> forall|taken: Seq<Seq<bool>>, s: Seq<Seq<T>>, l: Seq<Seq<T>>|
        #[trigger] one_hot_steps(ln, y, t, delta, taken, s, l) ==> {
            let total = picked_sum(zero, taken, l, y.cols as int, y.rows as int);
            &&& total.neg_req()
            &&& total.neg_spec().div_req(T::from_spec(y.rows as u32))
        }
    &&& !entropy_ops_obey::<T>() ==> {
        &&& forall|a: T, b: T| #[trigger] a.add_req(b)
        &&& forall|a: T, b: T| #[trigger] a.div_req(b)
        &&& forall|a: T| #[trigger] a.neg_req()
    }
}

/// The cross-entropy error for a one-hot `t`: only the entries where `t` is 1 count, and
/// the result is `-(sum of ln(y + delta) over them) / rows`, the general error up to
/// rounding. `t` must be one-hot in every row when the shapes agree. Fails when the
/// shapes differ.
#[verifier::loop_isolation(false)]
pub fn cross_entropy_error_optimized<T, L>(y: &Matrix<T>, t: &Matrix<T>, ln: L, delta: T) -> (r:
    Result<T, ShapeMismatch>) where
    T: Copy + core::ops::Add<Output = T> + core::ops::Mul<Output = T> + core::ops::Div<
        Output = T,
    > + core::ops::Neg<Output = T> + PartialEq + From<u32>,
    L: Fn(T) -> T,
    requires
        y.wf(),
        t.wf(),
        y.rows == t.rows && y.cols == t.cols ==> {
            &&& y.rows > 0
            &&& y.rows <= u32::MAX
            &&& one_hot_rows(*t)
            &&& one_hot_defined(ln, *y, *t, delta)
        },
    ensures
        r is Ok <==> y.rows == t.rows && y.cols == t.cols,
        r matches Ok(v) ==> exists|taken: Seq<Seq<bool>>, s: Seq<Seq<T>>, l: Seq<Seq<T>>|
            {
                &&& #[trigger] one_hot_steps(ln, *y, *t, delta, taken, s, l)
                &&& (T::obeys_add_spec() && T::obeys_div_spec() && T::obeys_neg_spec()
                    && T::obeys_from_spec()) ==> v == picked_sum(
                    T::from_spec(0u32),
                    taken,
                    l,
                    y.cols as int,
                    y.rows as int,
                ).neg_spec().div_spec(T::from_spec(y.rows as u32))
            },
{
    if y.rows != t.rows || y.cols != t.cols {
        return Err(ShapeMismatch);
    }
    let zero = T::from(0u32);
    let one = T::from(1u32);
    let mut sum = zero;
    let ghost mut taken: Seq<Seq<bool>> = Seq::empty();
    let ghost mut s: Seq<Seq<T>> = Seq::empty();
    let ghost mut l: Seq<Seq<T>> = Seq::empty();
    let mut i: usize = 0;
    while i < y.rows
        invariant
            i <= y.rows,
            taken.len() == i && s.len() == i && l.len() == i,
            forall|k: int|
                0 <= k < i ==> (#[trigger] taken[k]).len() == y.cols && s[k].len() == y.cols
                    && l[k].len() == y.cols,
            (T::obeys_eq_spec() && T::obeys_from_spec()) ==> forall|k: int, j: int|
                0 <= k < i && 0 <= j < y.cols ==> #[trigger] taken[k][j] == t.entry(k, j).eq_spec(
                    &T::from_spec(1u32),
                ),
            forall|k: int, j: int|
                0 <= k < i && 0 <= j < y.cols && #[trigger] taken[k][j] ==> {
                    &&& T::obeys_add_spec() ==> s[k][j] == y.entry(k, j).add_spec(delta)
                    &&& ln.ensures((s[k][j],), l[k][j])
                },
            (T::obeys_add_spec() && T::obeys_from_spec()) ==> sum == picked_sum(
                T::from_spec(0u32),
                taken,
                l,
                y.cols as int,
                i as int,
            ),
        decreases y.rows - i,
    {
        let ghost mut trow: Seq<bool> = Seq::empty();
        let ghost mut srow: Seq<T> = Seq::empty();
        let ghost mut lrow: Seq<T> = Seq::empty();
        let ghost start = sum;
        let mut j: usize = 0;
        while j < y.cols
            invariant
                i < y.rows,
                j <= y.cols,
                trow.len() == j && srow.len() == j && lrow.len() == j,
                (T::obeys_eq_spec() && T::obeys_from_spec()) ==> forall|q: int|
                    0 <= q < j ==> #[trigger] trow[q] == t.entry(i as int, q).eq_spec(
                        &T::from_spec(1u32),
                    ),
                forall|q: int|
                    0 <= q < j && #[trigger] trow[q] ==> {
                        &&& T::obeys_add_spec() ==> srow[q] == y.entry(i as int, q).add_spec(delta)
                        &&& ln.ensures((srow[q],), lrow[q])
                    },
                T::obeys_add_spec() ==> sum == picked_row_sum(
                    start,
                    taken.push(trow),
                    l.push(lrow),
                    i as int,
                    j as int,
                ),
            decreases y.cols - j,
        {
            let ghost before_t = taken.push(trow);
            let ghost before_l = l.push(lrow);
            if t.data[i][j] == one {
                assert(y.entry(i as int, j as int).add_req(delta));
                let a = y.data[i][j] + delta;
                let lv = ln(a);
                proof {
                    if entropy_ops_obey::<T>() {
                        let tp = taken.push(trow);
                        let lp = l.push(lrow);
                        assert(tp[i as int] == trow && lp[i as int] == lrow);
                        assert(one_hot_prefix(ln, *y, *t, delta, tp, lp, i as int, j as int));
                        lemma_picked_sum_prefix(T::from_spec(0u32), tp, lp, taken, l, y.cols as int, i as int);
                        assert(picked_row_sum(
                            picked_sum(T::from_spec(0u32), tp, lp, y.cols as int, i as int),
                            tp,
                            lp,
                            i as int,
                            j as int,
                        ).add_req(lv));
                    }
                }
                sum = sum + lv;
                proof {
                    trow = trow.push(true);
                    srow = srow.push(a);
                    lrow = lrow.push(lv);
                }
            } else {
                proof {
                    trow = trow.push(false);
                    srow = srow.push(y.entry(i as int, j as int));
                    lrow = lrow.push(y.entry(i as int, j as int));
                }
            }
            proof {
                assert forall|q: int| 0 <= q < j implies picked_row_sum(
                    start,
                    taken.push(trow),
                    l.push(lrow),
                    i as int,
                    q,
                ) == picked_row_sum(start, before_t, before_l, i as int, q) by {
                    lemma_picked_row_prefix(start, taken.push(trow), l.push(lrow), before_t, before_l, i as int, q);
                }
                lemma_picked_row_prefix(start, taken.push(trow), l.push(lrow), before_t, before_l, i as int, j as int);
            }
            j = j + 1;
        }
        proof {
            let old_t = taken;
            let old_l = l;
            taken = taken.push(trow);
            s = s.push(srow);
            l = l.push(lrow);
            lemma_picked_sum_prefix(T::from_spec(0u32), taken, l, old_t, old_l, y.cols as int, i as int);
        }
        i = i + 1;
    }
    assert(one_hot_steps(ln, *y, *t, delta, taken, s, l));
    let neg = core::ops::Neg::neg(sum);
    let v = neg / T::from(y.rows as u32);
    Ok(v)
}

/// `picked_row_sum` over the first `n` entries of row `i` reads only those entries.
proof fn lemma_picked_row_prefix<T: core::ops::Add<Output = T>>(
    acc: T,
    t1: Seq<Seq<bool>>,
    l1: Seq<Seq<T>>,
    t2: Seq<Seq<bool>>,
    l2: Seq<Seq<T>>,
    i: int,
    n: int,
)
    requires
        forall|q: int| 0 <= q < n ==> #[trigger] t1[i][q] == t2[i][q],
        forall|q: int| 0 <= q < n ==> #[trigger] l1[i][q] == l2[i][q],
    ensures
        picked_row_sum(acc, t1, l1, i, n) == picked_row_sum(acc, t2, l2, i, n),
    decreases n,
{
    if n > 0 {
        lemma_picked_row_prefix(acc, t1, l1, t2, l2, i, n - 1);
    }
}

/// `picked_sum` over the first `m` rows reads only those rows.
proof fn lemma_picked_sum_prefix<T: core::ops::Add<Output = T>>(
    zero: T,
    t1: Seq<Seq<bool>>,
    l1: Seq<Seq<T>>,
    t2: Seq<Seq<bool>>,
    l2: Seq<Seq<T>>,
    cols: int,
    m: int,
)
    requires
        forall|k: int, q: int| 0 <= k < m && 0 <= q < cols ==> #[trigger] t1[k][q] == t2[k][q],
        forall|k: int, q: int| 0 <= k < m && 0 <= q < cols ==> #[trigger] l1[k][q] == l2[k][q],
    ensures
        picked_sum(zero, t1, l1, cols, m) == picked_sum(zero, t2, l2, cols, m),
    decreases m,
{
    if m > 0 {
        lemma_picked_sum_prefix(zero, t1, l1, t2, l2, cols, m - 1);
        lemma_picked_row_prefix(picked_sum(zero, t1, l1, cols, m - 1), t1, l1, t2, l2, m - 1, cols);
    }
}

} // verus!
