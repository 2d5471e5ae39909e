use vstd::prelude::*;
use vstd::std_specs::cmp::{PartialOrdIs, PartialOrdSpec};
use vstd::std_specs::convert::FromSpec;
use vstd::std_specs::ops::{AddSpec, DivSpec, NegSpec, SubSpec};
use crate::matrix::Matrix;

verus! {

/// The largest of the first `n` entries of `row` (`n >= 1`), as `>` picks it from left
/// to right: a later entry replaces the maximum so far only when it is greater.
pub open spec fn row_max<T: PartialOrd>(row: Seq<T>, n: int) -> T
    decreases n,
{
    if n <= 1 {
        row[0]
    } else if row[n - 1].is_gt(&row_max(row, n - 1)) {
        row[n - 1]
    } else {
        row_max(row, n - 1)
    }
}

/// The sum of the first `n` entries of `e` (`n >= 1`), added from left to right.
pub open spec fn seq_sum<T: core::ops::Add<Output = T>>(e: Seq<T>, n: int) -> T
    decreases n,
{
    if n <= 1 {
        e[0]
    } else {
        seq_sum(e, n - 1).add_spec(e[n - 1])
    }
}

/// `out` is the softmax of the non-empty `row`, computed through the shifted entries
/// `d` (each entry minus the row's maximum) and their exponentials `e`: every output
/// entry is its exponential divided by the sum of all of them.
pub open spec fn softmax_steps<T, E>(exp: E, row: Seq<T>, out: Seq<T>, d: Seq<T>, e: Seq<T>) -> bool where
    T: PartialOrd + core::ops::Sub<Output = T> + core::ops::Add<Output = T> + core::ops::Div<
        Output = T,
    >,
    E: Fn(T) -> T,
 {
    &&& d.len() == row.len()
    &&& e.len() == row.len()
    &&& (T::obeys_partial_cmp_spec() && T::obeys_sub_spec()) ==> forall|j: int|
        0 <= j < row.len() ==> #[trigger] d[j] == row[j].sub_spec(row_max(row, row.len() as int))
    &&& forall|j: int| 0 <= j < row.len() ==> exp.ensures((d[j],), #[trigger] e[j])
    &&& (T::obeys_add_spec() && T::obeys_div_spec()) ==> forall|j: int|
        0 <= j < row.len() ==> #[trigger] out[j] == e[j].div_spec(seq_sum(e, row.len() as int))
}

/// `out` is the softmax of `row`, with `exp` as the exponential; an empty row stays empty.
pub open spec fn is_softmax_row<T, E>(exp: E, row: Seq<T>, out: Seq<T>) -> bool where
    T: PartialOrd + core::ops::Sub<Output = T> + core::ops::Add<Output = T> + core::ops::Div<
        Output = T,
    >,
    E: Fn(T) -> T,
 {
    &&& out.len() == row.len()
    &&& row.len() > 0 ==> exists|d: Seq<T>, e: Seq<T>| #[trigger] softmax_steps(exp, row, out, d, e)
}

/// `v` is a value that `exp` may give on some argument.
pub open spec fn is_exp_output<T, E: Fn(T) -> T>(exp: E, v: T) -> bool {
    exists|a: T| #[trigger] exp.ensures((a,), v)
}

/// `e` holds `n` values, each one that `exp` may give on some argument.
pub open spec fn exp_outputs<T, E: Fn(T) -> T>(exp: E, e: Seq<T>, n: int) -> bool {
    &&& e.len() == n
    &&& forall|k: int| 0 <= k < n ==> #[trigger] is_exp_output(exp, e[k])
}

/// The operations of the softmax of `row` are defined on their operands: every entry
/// minus any other (the maximum is one of them), `exp` on each such difference, and,
/// whatever values `exp` gives, each partial sum and each quotient by the full sum.
/// Where `-` or `+` does not follow its specification, `exp` must accept every value,
/// and every sum and quotient must be defined.
pub open spec fn softmax_row_defined<T, E>(exp: E, row: Seq<T>) -> bool where
    T: PartialOrd + core::ops::Sub<Output = T> + core::ops::Add<Output = T> + core::ops::Div<
        Output = T,
    >,
    E: Fn(T) -> T,
 {
    &&& forall|k: int, q: int|
        0 <= k < row.len() && 0 <= q < row.len() ==> #[trigger] row[k].sub_req(row[q])
    &&& T::obeys_sub_spec() ==> forall|k: int, q: int|
        0 <= k < row.len() && 0 <= q < row.len() ==> exp.requires(
            (#[trigger] row[k].sub_spec(row[q]),),
        )
    &&& !T::obeys_sub_spec() ==> forall|v: T| #[trigger] exp.requires((v,))
    &&& T::obeys_add_spec() ==> forall|e: Seq<T>|
        #[trigger] exp_outputs(exp, e, row.len() as int) ==> {
            &&& forall|k: int| 1 <= k < row.len() ==> #[trigger] seq_sum(e, k).add_req(e[k])
            &&& forall|k: int|
                0 <= k < row.len() ==> #[trigger] e[k].div_req(seq_sum(e, row.len() as int))
        }
    &&& !T::obeys_add_spec() ==> {
        &&& forall|a: T, b: T| #[trigger] a.add_req(b)
        &&& forall|a: T, b: T| #[trigger] a.div_req(b)
    }
}

/// The softmax of one row: its maximum is subtracted from every entry before `exp`, so
/// that large entries cannot overflow, and the exponentials are divided by their sum.
#[verifier::loop_isolation(false)]
pub fn softmax_row<T, E>(row: &Vec<T>, exp: &E) -> (r: Vec<T>) where
    T: Copy + PartialOrd + core::ops::Sub<Output = T> + core::ops::Add<Output = T> + core::ops::Div<
        Output = T,
    >,
    E: Fn(T) -> T,
    requires
        softmax_row_defined(*exp, row@),
    ensures
        is_softmax_row(*exp, row@, r@),
{
    let n = row.len();
    if n == 0 {
        return Vec::new();
    }
    let mut m = row[0];
    let ghost mut mi: int = 0;
    let mut k: usize = 1;
    while k < n
        invariant
            1 <= k <= n,
            0 <= mi < n,
            m == row@[mi],
            T::obeys_partial_cmp_spec() ==> m == row_max(row@, k as int),
        decreases n - k,
    {
        if row[k] > m {
            m = row[k];
            proof {
                mi = k as int;
            }
        }
        k = k + 1;
    }
    let mut d: Vec<T> = Vec::new();
    let mut e: Vec<T> = Vec::new();
    k = 0;
    while k < n
        invariant
            k <= n,
            d@.len() == k,
            e@.len() == k,
            T::obeys_partial_cmp_spec() ==> m == row_max(row@, n as int),
            (T::obeys_partial_cmp_spec() && T::obeys_sub_spec()) ==> forall|j: int|
                0 <= j < k ==> #[trigger] d@[j] == row@[j].sub_spec(row_max(row@, n as int)),
            forall|j: int| 0 <= j < k ==> exp.ensures((d@[j],), #[trigger] e@[j]),
        decreases n - k,
    {
        assert(row@[k as int].sub_req(row@[mi]));
        let dk = row[k] - m;
        proof {
            if T::obeys_sub_spec() {
                assert(exp.requires((row@[k as int].sub_spec(row@[mi]),)));
            }
        }
        let ek = exp(dk);
        d.push(dk);
        e.push(ek);
        k = k + 1;
    }
    proof {
        if T::obeys_add_spec() {
            assert forall|j: int| 0 <= j < n implies #[trigger] is_exp_output(*exp, e@[j]) by {
                assert(exp.ensures((d@[j],), e@[j]));
            }
            assert(exp_outputs(*exp, e@, n as int));
        }
    }
    let mut s = e[0];
    k = 1;
    while k < n
        invariant
            1 <= k <= n,
            e@.len() == n,
            T::obeys_add_spec() ==> s == seq_sum(e@, k as int),
        decreases n - k,
    {
        proof {
            if T::obeys_add_spec() {
                assert(seq_sum(e@, k as int).add_req(e@[k as int]));
            }
        }
        s = s + e[k];
        k = k + 1;
    }
    let mut out: Vec<T> = Vec::new();
    k = 0;
    while k < n
        invariant
            k <= n,
            e@.len() == n,
            out@.len() == k,
            T::obeys_add_spec() ==> s == seq_sum(e@, n as int),
            (T::obeys_add_spec() && T::obeys_div_spec()) ==> forall|j: int|
                0 <= j < k ==> #[trigger] out@[j] == e@[j].div_spec(seq_sum(e@, n as int)),
        decreases n - k,
    {
        proof {
            if T::obeys_add_spec() {
                assert(e@[k as int].div_req(seq_sum(e@, n as int)));
            }
        }
        out.push(e[k] / s);
        k = k + 1;
    }
    assert(softmax_steps(*exp, row@, out@, d@, e@));
    out
}

/// `y` is the row-wise softmax of `x`, with `exp` as the exponential.
pub open spec fn is_softmax_matrix<T, E>(exp: E, x: Matrix<T>, y: Matrix<T>) -> bool where
    T: PartialOrd + core::ops::Sub<Output = T> + core::ops::Add<Output = T> + core::ops::Div<
        Output = T,
    >,
    E: Fn(T) -> T,
 {
    &&& y.wf()
    &&& y.rows == x.rows
    &&& y.cols == x.cols
    &&& forall|i: int| 0 <= i < x.rows ==> is_softmax_row(exp, x@[i], #[trigger] y@[i])
}

/// The row-wise softmax of `x`, with `exp` as the exponential: every row of the result
/// is the softmax of the matching row of `x`.
pub fn softmax_matrix<T, E>(x: &Matrix<T>, exp: E) -> (r: Matrix<T>) where
    T: Copy + PartialOrd + core::ops::Sub<Output = T> + core::ops::Add<Output = T> + core::ops::Div<
        Output = T,
    >,
    E: Fn(T) -> T,
    requires
        x.wf(),
        forall|i: int| 0 <= i < x.rows ==> #[trigger] softmax_row_defined(exp, x@[i]),
    ensures
        is_softmax_matrix(exp, *x, r),
{
    let mut data: Vec<Vec<T>> = Vec::new();
    let mut i: usize = 0;
    while i < x.rows
        invariant
            x.wf(),
            forall|i: int| 0 <= i < x.rows ==> #[trigger] softmax_row_defined(exp, x@[i]),
            i <= x.rows,
            data@.len() == i,
            forall|k: int| 0 <= k < i ==> (#[trigger] data@[k])@.len() == x.cols,
            forall|k: int| 0 <= k < i ==> is_softmax_row(exp, x@[k], #[trigger] data@[k]@),
        decreases x.rows - i,
    {
        assert(x@[i as int] == x.data@[i as int]@);
        assert(softmax_row_defined(exp, x@[i as int]));
        let out = softmax_row(&x.data[i], &exp);
        data.push(out);
        i = i + 1;
    }
    let r = Matrix { data, rows: x.rows, cols: x.cols };
    assert forall|i: int| 0 <= i < x.rows implies is_softmax_row(exp, x@[i], #[trigger] r@[i]) by {
        assert(r@[i] == data@[i]@);
    }
    r
}

/// `r` is `1 / (1 + exp(-v))`, with `exp` as the exponential.
pub open spec fn is_sigmoid<T, E>(exp: E, v: T, r: T) -> bool where
    T: core::ops::Neg<Output = T> + core::ops::Add<Output = T> + core::ops::Div<Output = T> + From<
        u32,
    >,
    E: Fn(T) -> T,
 {
    exists|n: T, e: T|
        {
            &&& T::obeys_neg_spec() ==> n == v.neg_spec()
            &&& #[trigger] exp.ensures((n,), e)
            &&& (T::obeys_add_spec() && T::obeys_div_spec() && T::obeys_from_spec()) ==> r
                == T::from_spec(1u32).div_spec(T::from_spec(1u32).add_spec(e))
        }
}

/// The operations of the sigmoid of `v` are defined on their operands: `-v`, `exp` on
/// it, and, whatever value `exp` gives, `1 +` that value and `1` divided by the sum.
/// Where the operations do not follow their specifications, `exp` must accept every
/// value, and every sum and quotient must be defined.
pub open spec fn sigmoid_defined<T, E>(exp: &E, v: T) -> bool where
    T: core::ops::Neg<Output = T> + core::ops::Add<Output = T> + core::ops::Div<Output = T> + From<
        u32,
    >,
    E: Fn(T) -> T,
 {
    let one = T::from_spec(1u32);
    &&& v.neg_req()
    &&& T::obeys_neg_spec() ==> exp.requires((v.neg_spec(),))
    &&& !T::obeys_neg_spec() ==> forall|a: T| #[trigger] exp.requires((a,))
    &&& (T::obeys_add_spec() && T::obeys_from_spec()) ==> forall|e: T|
        #[trigger] is_exp_output(*exp, e) ==> one.add_req(e) && one.div_req(one.add_spec(e))
    &&& !(T::obeys_add_spec() && T::obeys_from_spec()) ==> {
        &&& forall|a: T, b: T| #[trigger] a.add_req(b)
        &&& forall|a: T, b: T| #[trigger] a.div_req(b)
    }
}

/// The logistic function `1 / (1 + exp(-v))`.
pub fn sigmoid<T, E>(v: T, exp: &E) -> (r: T) where
    T: Copy + core::ops::Neg<Output = T> + core::ops::Add<Output = T> + core::ops::Div<
        Output = T,
    > + From<u32>,
    E: Fn(T) -> T,
    requires
        sigmoid_defined(exp, v),
    ensures
        is_sigmoid(*exp, v, r),
{
    let n = core::ops::Neg::neg(v);
    let e = exp(n);
    assert(is_exp_output(*exp, e));
    let one = T::from(1u32);
    let r = one / (T::from(1u32) + e);
    assert(exp.ensures((n,), e));
    r
}

/// `z` is the logistic function, with `exp` as the exponential, applied to every entry
/// of `a`.
pub open spec fn is_sigmoid_matrix<T, E>(exp: E, a: Matrix<T>, z: Matrix<T>) -> bool where
    T: core::ops::Neg<Output = T> + core::ops::Add<Output = T> + core::ops::Div<Output = T> + From<
        u32,
    >,
    E: Fn(T) -> T,
 {
    &&& z.wf()
    &&& z.rows == a.rows
    &&& z.cols == a.cols
    &&& forall|i: int, j: int|
        0 <= i < a.rows && 0 <= j < a.cols ==> is_sigmoid(exp, a.entry(i, j), #[trigger] z.entry(i, j))
}

/// The logistic function applied to every entry of `x`.
pub fn sigmoid_matrix<T, E>(x: &Matrix<T>, exp: E) -> (r: Matrix<T>) where
    T: Copy + core::ops::Neg<Output = T> + core::ops::Add<Output = T> + core::ops::Div<
        Output = T,
    > + From<u32>,
    E: Fn(T) -> T,
    requires
        x.wf(),
        forall|i: int, j: int|
            0 <= i < x.rows && 0 <= j < x.cols ==> #[trigger] sigmoid_defined(&exp, x.entry(i, j)),
    ensures
        is_sigmoid_matrix(exp, *x, r),
{
    let e = &exp;
    let f = |v: T| -> (r: T)
        requires
            sigmoid_defined(e, v),
        ensures
            is_sigmoid(*e, v, r),
        { sigmoid(v, e) };
    x.map(f)
}

/// The rectifier: `x` where it is greater than `zero`, else `zero`.
pub fn relu<T: Copy + PartialOrd>(x: T, zero: T) -> (r: T)
    ensures
        r == x || r == zero,
        T::obeys_partial_cmp_spec() ==> r == (if x.is_gt(&zero) {
            x
        } else {
            zero
        }),
{
    if x > zero {
        x
    } else {
        zero
    }
}

} // verus!
