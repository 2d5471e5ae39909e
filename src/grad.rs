use vstd::prelude::*;
use vstd::std_specs::ops::{AddSpec, DivSpec, SubSpec};
use crate::matrix::Matrix;

verus! {

/// The central difference `(f(x + h) - f(x - h)) / (h + h)` of a scalar function.
pub fn numerical_diff<T, F>(f: F, x: T, h: T) -> (r: T)
    where
        T: Copy + core::ops::Add<Output = T> + core::ops::Sub<Output = T> + core::ops::Div<
            Output = T,
        >,
        F: Fn(T) -> T,
    requires
        forall|v: T| #[trigger] f.requires((v,)),
        x.add_req(h),
        x.sub_req(h),
        h.add_req(h),
        forall|a1: T, a2: T, fu: T, fd: T|
            #![trigger f.ensures((a1,), fu), f.ensures((a2,), fd)]
            f.ensures((a1,), fu) && f.ensures((a2,), fd) ==> fu.sub_req(fd),
        forall|a: T, d: T| (T::obeys_add_spec() ==> d == h.add_spec(h)) ==> #[trigger] a.div_req(d),
    ensures
        exists|up: T, down: T, fu: T, fd: T|
            {
                &&& T::obeys_add_spec() ==> up == x.add_spec(h)
                &&& T::obeys_sub_spec() ==> down == x.sub_spec(h)
                &&& #[trigger] f.ensures((up,), fu)
                &&& #[trigger] f.ensures((down,), fd)
                &&& (T::obeys_add_spec() && T::obeys_sub_spec() && T::obeys_div_spec()) ==> r
                    == fu.sub_spec(fd).div_spec(h.add_spec(h))
            },
{
    let up = x + h;
    let down = x - h;
    let fu = f(up);
    let fd = f(down);
    let two_h = h + h;
    (fu - fd) / two_h
}

/// `m` is `x` with entry `(i, j)` replaced, and nothing else changed.
pub open spec fn differs_only_at<T>(m: Matrix<T>, x: Matrix<T>, i: int, j: int) -> bool {
    &&& m.wf()
    &&& m.rows == x.rows
    &&& m.cols == x.cols
    &&& m@ == x@.update(i, x@[i].update(j, m.entry(i, j)))
}

/// `g` is the central difference of `f` at `x` along entry `(i, j)` with step `h`: `f` is
/// evaluated on two private copies of `x`, one with that entry raised by `h` and one with
/// it lowered by `h`, and `g` is `(f(up) - f(down)) / (h + h)`.
pub open spec fn is_central_difference<T, F>(f: F, x: Matrix<T>, h: T, i: int, j: int, g: T) -> bool
    where
        T: core::ops::Add<Output = T> + core::ops::Sub<Output = T> + core::ops::Div<Output = T>,
        F: Fn(&Matrix<T>) -> T,
{
    exists|up: Matrix<T>, down: Matrix<T>, fu: T, fd: T|
        {
            &&& differs_only_at(up, x, i, j)
            &&& differs_only_at(down, x, i, j)
            &&& T::obeys_add_spec() ==> up.entry(i, j) == x.entry(i, j).add_spec(h)
            &&& T::obeys_sub_spec() ==> down.entry(i, j) == x.entry(i, j).sub_spec(h)
            &&& #[trigger] f.ensures((&up,), fu)
            &&& #[trigger] f.ensures((&down,), fd)
            &&& (T::obeys_add_spec() && T::obeys_sub_spec() && T::obeys_div_spec()) ==> g
                == fu.sub_spec(fd).div_spec(h.add_spec(h))
        }
}

/// The operations of the central difference are defined: `x(i, j) + h`, `x(i, j) - h`,
/// `h + h`, the difference of any two values that `f` gives, and its quotient by
/// `h + h` (by any divisor, where `+` does not follow its specification).
pub open spec fn difference_defined<T, F>(f: F, x: Matrix<T>, h: T) -> bool
    where
        T: core::ops::Add<Output = T> + core::ops::Sub<Output = T> + core::ops::Div<Output = T>,
        F: Fn(&Matrix<T>) -> T,
{
    &&& forall|i: int, j: int|
        0 <= i < x.rows && 0 <= j < x.cols ==> (#[trigger] x.entry(i, j)).add_req(h) && x.entry(
            i,
            j,
        ).sub_req(h)
    &&& h.add_req(h)
    &&& forall|m1: Matrix<T>, m2: Matrix<T>, fu: T, fd: T|
        #![trigger f.ensures((&m1,), fu), f.ensures((&m2,), fd)]
        f.ensures((&m1,), fu) && f.ensures((&m2,), fd) ==> fu.sub_req(fd)
    &&& forall|a: T, d: T|
        (T::obeys_add_spec() ==> d == h.add_spec(h)) ==> #[trigger] a.div_req(d)
}

/// The gradient of `f` at `x` by central differences with step `h`: entry `(i, j)` of the
/// result is `(f(x + h e_ij) - f(x - h e_ij)) / (h + h)`, where each perturbed point is a
/// fresh copy of `x` that differs from it in that one entry. Entries are visited in
/// row-major order, and `x` is never changed.
#[verifier::loop_isolation(false)]
pub fn numerical_gradient<T, F>(f: F, x: &Matrix<T>, h: T) -> (r: Matrix<T>)
    where
        T: Copy + core::ops::Add<Output = T> + core::ops::Sub<Output = T> + core::ops::Div<
            Output = T,
        >,
        F: Fn(&Matrix<T>) -> T,
    requires
        x.wf(),
        forall|m: Matrix<T>|
            m.wf() && m.rows == x.rows && m.cols == x.cols ==> #[trigger] f.requires((&m,)),
        difference_defined(f, *x, h),
    ensures
        r.wf(),
        r.rows == x.rows,
        r.cols == x.cols,
        forall|i: int, j: int|
            0 <= i < x.rows && 0 <= j < x.cols ==> is_central_difference(
                f,
                *x,
                h,
                i,
                j,
                #[trigger] r.entry(i, j),
            ),
{
    let two_h = h + h;
    let mut data: Vec<Vec<T>> = Vec::new();
    let mut i: usize = 0;
    while i < x.rows
        invariant
            i <= x.rows,
            data@.len() == i,
            forall|k: int| 0 <= k < i ==> (#[trigger] data@[k])@.len() == x.cols,
            forall|k: int, j: int|
                0 <= k < i && 0 <= j < x.cols ==> is_central_difference(
                    f,
                    *x,
                    h,
                    k,
                    j,
                    #[trigger] data@[k]@[j],
                ),
        decreases x.rows - i,
    {
        let mut row: Vec<T> = Vec::new();
        let mut j: usize = 0;
        while j < x.cols
            invariant
                j <= x.cols,
                row@.len() == j,
                forall|l: int|
                    0 <= l < j ==> is_central_difference(f, *x, h, i as int, l, #[trigger] row@[l]),
            decreases x.cols - j,
        {
            let v = x.data[i][j];
            assert(v == x.entry(i as int, j as int));
            let xh1 = x.with_entry(i, j, v + h);
            let xh2 = x.with_entry(i, j, v - h);
            let fxh1 = f(&xh1);
            let fxh2 = f(&xh2);
            let g = (fxh1 - fxh2) / two_h;
            assert(is_central_difference(f, *x, h, i as int, j as int, g)) by {
                assert(xh1.entry(i as int, j as int) == xh1@[i as int][j as int]);
                assert(xh2.entry(i as int, j as int) == xh2@[i as int][j as int]);
                assert(differs_only_at(xh1, *x, i as int, j as int));
                assert(differs_only_at(xh2, *x, i as int, j as int));
            }
            row.push(g);
            j = j + 1;
        }
        data.push(row);
        i = i + 1;
    }
    Matrix { data, rows: x.rows, cols: x.cols }
}

/// `g` is the central difference of `f` at the vector `x` along entry `i` with step
/// `h`: `f` is evaluated on two private copies of `x`, one with that entry raised by
/// `h` and one with it lowered by `h`, and `g` is `(f(up) - f(down)) / (h + h)`.
pub open spec fn is_central_difference_1d<T, F>(f: F, x: Seq<T>, h: T, i: int, g: T) -> bool
    where
        T: core::ops::Add<Output = T> + core::ops::Sub<Output = T> + core::ops::Div<Output = T>,
        F: Fn(&Vec<T>) -> T,
{
    exists|up: Vec<T>, down: Vec<T>, fu: T, fd: T|
        {
            &&& up@ == x.update(i, up@[i])
            &&& down@ == x.update(i, down@[i])
            &&& T::obeys_add_spec() ==> up@[i] == x[i].add_spec(h)
            &&& T::obeys_sub_spec() ==> down@[i] == x[i].sub_spec(h)
            &&& #[trigger] f.ensures((&up,), fu)
            &&& #[trigger] f.ensures((&down,), fd)
            &&& (T::obeys_add_spec() && T::obeys_sub_spec() && T::obeys_div_spec()) ==> g
                == fu.sub_spec(fd).div_spec(h.add_spec(h))
        }
}

/// A copy of `v` in which entry `i` holds `val`.
fn with_item<T: Copy>(v: &Vec<T>, i: usize, val: T) -> (r: Vec<T>)
    requires
        i < v@.len(),
    ensures
        r@ == v@.update(i as int, val),
{
    let mut r: Vec<T> = Vec::new();
    let mut k: usize = 0;
    while k < v.len()
        invariant
            i < v@.len(),
            k <= v@.len(),
            r@ == v@.update(i as int, val).subrange(0, k as int),
        decreases v@.len() - k,
    {
        if k == i {
            r.push(val);
        } else {
            r.push(v[k]);
        }
        k = k + 1;
        assert(r@ =~= v@.update(i as int, val).subrange(0, k as int));
    }
    assert(r@ =~= v@.update(i as int, val));
    r
}

/// The gradient of `f` at the vector `x` by central differences with step `h`, entry
/// by entry in order; each perturbed point is a fresh copy of `x` that differs from it
/// in one entry, and `x` is never changed.
#[verifier::loop_isolation(false)]
pub fn numerical_gradient_1d<T, F>(f: F, x: &Vec<T>, h: T) -> (r: Vec<T>)
    where
        T: Copy + core::ops::Add<Output = T> + core::ops::Sub<Output = T> + core::ops::Div<
            Output = T,
        >,
        F: Fn(&Vec<T>) -> T,
    requires
        forall|v: Vec<T>| v@.len() == x@.len() ==> #[trigger] f.requires((&v,)),
        forall|i: int| 0 <= i < x@.len() ==> (#[trigger] x@[i]).add_req(h) && x@[i].sub_req(h),
        h.add_req(h),
        forall|v1: Vec<T>, v2: Vec<T>, fu: T, fd: T|
            #![trigger f.ensures((&v1,), fu), f.ensures((&v2,), fd)]
            f.ensures((&v1,), fu) && f.ensures((&v2,), fd) ==> fu.sub_req(fd),
        forall|a: T, d: T| (T::obeys_add_spec() ==> d == h.add_spec(h)) ==> #[trigger] a.div_req(d),
    ensures
        r@.len() == x@.len(),
        forall|i: int|
            0 <= i < x@.len() ==> is_central_difference_1d(f, x@, h, i, #[trigger] r@[i]),
{
    let two_h = h + h;
    let mut r: Vec<T> = Vec::new();
    let mut i: usize = 0;
    while i < x.len()
        invariant
            i <= x@.len(),
            r@.len() == i,
            forall|k: int| 0 <= k < i ==> is_central_difference_1d(f, x@, h, k, #[trigger] r@[k]),
        decreases x@.len() - i,
    {
        let v = x[i];
        assert(x@[i as int].add_req(h) && x@[i as int].sub_req(h));
        let xh1 = with_item(x, i, v + h);
        let xh2 = with_item(x, i, v - h);
        let fxh1 = f(&xh1);
        let fxh2 = f(&xh2);
        let g = (fxh1 - fxh2) / two_h;
        assert(is_central_difference_1d(f, x@, h, i as int, g));
        r.push(g);
        i = i + 1;
    }
    r
}

} // verus!
