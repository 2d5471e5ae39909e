use vstd::prelude::*;
use vstd::std_specs::ops::{AddSpec, DivSpec, MulSpec, SubSpec};
use crate::grad::{differs_only_at, is_central_difference, numerical_gradient};
use crate::activation::{
    is_sigmoid_matrix, is_softmax_matrix, sigmoid_defined, sigmoid_matrix, softmax_matrix,
    softmax_row_defined,
};
use crate::matrix::{Matrix, ShapeMismatch};

verus! {

/// A network of two fully connected layers: a hidden layer with an elementwise
/// activation, and an output layer with a row-wise one.
#[derive(Debug, Clone)]
pub struct SimpleNet<T> {
    pub w1: Matrix<T>,
    pub b1: Matrix<T>,
    pub w2: Matrix<T>,
    pub b2: Matrix<T>,
}

/// The network over the library's own matrices; the same type as `SimpleNet`.
pub type SimpleNetMatrix<T> = SimpleNet<T>;

impl<T> SimpleNet<T> {
    /// The four parameters are well formed and their shapes fit together: `w1` is
    /// input x hidden, `b1` is 1 x hidden, `w2` is hidden x output, `b2` is 1 x output.
    pub open spec fn wf(&self) -> bool {
        &&& self.w1.wf()
        &&& self.b1.wf()
        &&& self.w2.wf()
        &&& self.b2.wf()
        &&& self.b1.rows == 1
        &&& self.b2.rows == 1
        &&& self.w1.cols == self.b1.cols
        &&& self.b1.cols == self.w2.rows
        &&& self.w2.cols == self.b2.cols
    }

    /// Each parameter has the shape of the matching parameter of `other`.
    pub open spec fn same_shapes(&self, other: &SimpleNet<T>) -> bool {
        &&& self.w1.rows == other.w1.rows && self.w1.cols == other.w1.cols
        &&& self.b1.rows == other.b1.rows && self.b1.cols == other.b1.cols
        &&& self.w2.rows == other.w2.rows && self.w2.cols == other.w2.cols
        &&& self.b2.rows == other.b2.rows && self.b2.cols == other.b2.cols
    }
}

impl<T: Copy> SimpleNet<T> {
    /// A network whose weights are read from `samples`, first `w1` and then `w2`, each
    /// row by row, and whose biases are all `zero`.
    pub fn new(
        input_size: usize,
        hidden_size: usize,
        output_size: usize,
        samples: &Vec<T>,
        zero: T,
    ) -> (r: SimpleNet<T>)
        requires
            samples@.len() == input_size * hidden_size + hidden_size * output_size,
        ensures
            r.wf(),
            r.w1.rows == input_size,
            r.w1.cols == hidden_size,
            r.w2.cols == output_size,
            forall|i: int, j: int|
                0 <= i < input_size && 0 <= j < hidden_size ==> #[trigger] r.w1.entry(i, j)
                    == samples@[i * hidden_size + j],
            forall|i: int, j: int|
                0 <= i < hidden_size && 0 <= j < output_size ==> #[trigger] r.w2.entry(i, j)
                    == samples@[input_size * hidden_size + i * output_size + j],
            forall|j: int| 0 <= j < hidden_size ==> #[trigger] r.b1.entry(0, j) == zero,
            forall|j: int| 0 <= j < output_size ==> #[trigger] r.b2.entry(0, j) == zero,
    {
        proof {
            assert(samples.len() == samples@.len());
        }
        assert(0 <= input_size * hidden_size && 0 <= hidden_size * output_size) by (nonlinear_arith);
        let first = input_size * hidden_size;
        let w1 = Matrix::from_flat(samples, 0, input_size, hidden_size);
        let w2 = Matrix::from_flat(samples, first, hidden_size, output_size);
        let b1 = Matrix::new(1, hidden_size, zero);
        let b2 = Matrix::new(1, output_size, zero);
        SimpleNet { w1, b1, w2, b2 }
    }
}

/// Every operation of the forward pass on `x` is defined on its operands, whatever
/// values `exp` gives: the first product and its bias, the sigmoid of each hidden
/// entry, the second product and its bias, and the softmax of each output row.
pub open spec fn forward_defined<T, E>(net: SimpleNet<T>, x: Matrix<T>, exp: E) -> bool where
    T: Copy + core::ops::Add<Output = T> + core::ops::Mul<Output = T> + core::ops::Sub<
        Output = T,
    > + core::ops::Div<Output = T> + core::ops::Neg<Output = T> + PartialOrd + From<u32>,
    E: Fn(T) -> T,
 {
    &&& x.dot_defined(&net.w1)
    &&& forall|h: Matrix<T>| #[trigger] x.is_product(&net.w1, h) ==> h.add_defined(&net.b1)
    &&& forall|h: Matrix<T>, a1: Matrix<T>|
        #![trigger x.is_product(&net.w1, h), h.is_sum(&net.b1, a1)]
        x.is_product(&net.w1, h) && h.is_sum(&net.b1, a1) ==> forall|i: int, j: int|
            0 <= i < a1.rows && 0 <= j < a1.cols ==> #[trigger] sigmoid_defined(&exp, a1.entry(i, j))
    &&& forall|h: Matrix<T>, a1: Matrix<T>, z1: Matrix<T>|
        #![trigger x.is_product(&net.w1, h), h.is_sum(&net.b1, a1), is_sigmoid_matrix(exp, a1, z1)]
        x.is_product(&net.w1, h) && h.is_sum(&net.b1, a1) && is_sigmoid_matrix(exp, a1, z1)
            ==> z1.dot_defined(&net.w2)
    &&& forall|h: Matrix<T>, a1: Matrix<T>, z1: Matrix<T>, g: Matrix<T>|
        #![trigger x.is_product(&net.w1, h), h.is_sum(&net.b1, a1), is_sigmoid_matrix(exp, a1, z1), z1.is_product(&net.w2, g)]
        x.is_product(&net.w1, h) && h.is_sum(&net.b1, a1) && is_sigmoid_matrix(exp, a1, z1)
            && z1.is_product(&net.w2, g) ==> g.add_defined(&net.b2)
    &&& forall|h: Matrix<T>, a1: Matrix<T>, z1: Matrix<T>, g: Matrix<T>, a2: Matrix<T>|
        #![trigger x.is_product(&net.w1, h), h.is_sum(&net.b1, a1), is_sigmoid_matrix(exp, a1, z1), z1.is_product(&net.w2, g), g.is_sum(&net.b2, a2)]
        x.is_product(&net.w1, h) && h.is_sum(&net.b1, a1) && is_sigmoid_matrix(exp, a1, z1)
            && z1.is_product(&net.w2, g) && g.is_sum(&net.b2, a2) ==> forall|i: int|
            0 <= i < a2.rows ==> #[trigger] softmax_row_defined(exp, a2@[i])
}

impl<T> SimpleNet<T> where
    T: Copy + core::ops::Add<Output = T> + core::ops::Mul<Output = T> + core::ops::Sub<
        Output = T,
    > + core::ops::Div<Output = T> + core::ops::Neg<Output = T> + PartialOrd + From<u32>,
 {
    /// The forward pass `softmax(sigmoid(x * w1 + b1) * w2 + b2)`, with `exp` as the
    /// exponential of both activations: the sigmoid applies to every entry, the softmax
    /// to every row. Fails when the width of `x` is not the input size of the network.
    pub fn predict<E>(&self, x: &Matrix<T>, exp: E) -> (r: Result<Matrix<T>, ShapeMismatch>) where
        E: Fn(T) -> T + Copy,
        requires
            self.wf(),
            x.wf(),
            x.cols == self.w1.rows ==> forward_defined(*self, *x, exp),
        ensures
            r is Ok <==> x.cols == self.w1.rows,
            r matches Ok(y) ==> {
                &&& y.wf()
                &&& y.rows == x.rows
                &&& y.cols == self.w2.cols
                &&& exists|h: Matrix<T>, a1: Matrix<T>, z1: Matrix<T>, g: Matrix<T>, a2: Matrix<T>|
                    {
                        &&& #[trigger] x.is_product(&self.w1, h)
                        &&& #[trigger] h.is_sum(&self.b1, a1)
                        &&& #[trigger] is_sigmoid_matrix(exp, a1, z1)
                        &&& #[trigger] z1.is_product(&self.w2, g)
                        &&& #[trigger] g.is_sum(&self.b2, a2)
                        &&& is_softmax_matrix(exp, a2, y)
                    }
            },
    {
        let h = match x.dot(&self.w1) {
            Ok(h) => h,
            Err(e) => {
                return Err(e);
            },
        };
        let a1 = match h.add(&self.b1) {
            Ok(a) => a,
            Err(e) => {
                return Err(e);
            },
        };
        let z1 = sigmoid_matrix(&a1, exp);
        let g = match z1.dot(&self.w2) {
            Ok(g) => g,
            Err(e) => {
                return Err(e);
            },
        };
        let a2 = match g.add(&self.b2) {
            Ok(a) => a,
            Err(e) => {
                return Err(e);
            },
        };
        let y = softmax_matrix(&a2, exp);
        Ok(y)
    }
}

/// `m` is `p - lr * g`, entry by entry.
pub open spec fn is_descent_step<T>(p: Matrix<T>, g: Matrix<T>, lr: T, m: Matrix<T>) -> bool where
    T: core::ops::Sub<Output = T> + core::ops::Mul<Output = T>,
 {
    &&& m.wf()
    &&& m.rows == p.rows
    &&& m.cols == p.cols
    &&& (T::obeys_sub_spec() && T::obeys_mul_spec()) ==> forall|i: int, j: int|
        0 <= i < p.rows && 0 <= j < p.cols ==> #[trigger] m.entry(i, j) == p.entry(i, j).sub_spec(
            lr.mul_spec(g.entry(i, j)),
        )
}

impl<T> SimpleNet<T> where T: Copy + core::ops::Sub<Output = T> + core::ops::Mul<Output = T> {
    /// One step of gradient descent: every parameter `p` becomes `p - lr * g`, where `g`
    /// is its gradient, the matching parameter of `grads`.
    pub fn apply_gradients(&mut self, grads: &SimpleNet<T>, lr: T)
        requires
            old(self).wf(),
            grads.wf(),
            old(self).same_shapes(grads),
            old(self).w1.sub_scaled_defined(&grads.w1, lr),
            old(self).b1.sub_scaled_defined(&grads.b1, lr),
            old(self).w2.sub_scaled_defined(&grads.w2, lr),
            old(self).b2.sub_scaled_defined(&grads.b2, lr),
        ensures
            final(self).wf(),
            final(self).same_shapes(grads),
            is_descent_step(old(self).w1, grads.w1, lr, final(self).w1),
            is_descent_step(old(self).b1, grads.b1, lr, final(self).b1),
            is_descent_step(old(self).w2, grads.w2, lr, final(self).w2),
            is_descent_step(old(self).b2, grads.b2, lr, final(self).b2),
    {
        // The shapes agree, so each of the four steps succeeds.
        if let (Ok(w1), Ok(b1), Ok(w2), Ok(b2)) = (
            self.w1.sub_scaled(&grads.w1, lr),
            self.b1.sub_scaled(&grads.b1, lr),
            self.w2.sub_scaled(&grads.w2, lr),
            self.b2.sub_scaled(&grads.b2, lr),
        ) {
            self.w1 = w1;
            self.b1 = b1;
            self.w2 = w2;
            self.b2 = b2;
        }
    }
}

/// Parameter `which` of `net`: 0 is `w1`, 1 is `b1`, 2 is `w2`, 3 is `b2`.
pub open spec fn param<T>(net: SimpleNet<T>, which: int) -> Matrix<T> {
    if which == 0 {
        net.w1
    } else if which == 1 {
        net.b1
    } else if which == 2 {
        net.w2
    } else {
        net.b2
    }
}

/// Parameter `k` of `n` is well formed, shaped as in `net`, and holds `m` if `k` is
/// `which`, else what it holds in `net`.
pub open spec fn param_replaced<T>(
    n: SimpleNet<T>,
    net: SimpleNet<T>,
    which: int,
    m: Seq<Seq<T>>,
    k: int,
) -> bool {
    &&& param(n, k).wf()
    &&& param(n, k).rows == param(net, k).rows
    &&& param(n, k).cols == param(net, k).cols
    &&& param(n, k)@ == (if k == which {
        m
    } else {
        param(net, k)@
    })
}

/// `n` is `net` with parameter `which` holding `m` and the others unchanged.
pub open spec fn replaces_param<T>(n: SimpleNet<T>, net: SimpleNet<T>, which: int, m: Seq<Seq<T>>) -> bool {
    &&& param_replaced(n, net, which, m, 0)
    &&& param_replaced(n, net, which, m, 1)
    &&& param_replaced(n, net, which, m, 2)
    &&& param_replaced(n, net, which, m, 3)
}

/// `g` is the central difference of `loss` at `net` along entry `(i, j)` of parameter
/// `which`, with step `h`: `loss` is evaluated on two copies of `net` that differ from
/// it only in that entry, raised by `h` in one and lowered by `h` in the other, and
/// `g` is `(loss(up) - loss(down)) / (h + h)`.
pub open spec fn is_param_difference<T, L>(
    loss: L,
    net: SimpleNet<T>,
    which: int,
    h: T,
    i: int,
    j: int,
    g: T,
) -> bool where
    T: core::ops::Add<Output = T> + core::ops::Sub<Output = T> + core::ops::Div<Output = T>,
    L: Fn(&SimpleNet<T>) -> T,
 {
    let p = param(net, which);
    exists|up: SimpleNet<T>, down: SimpleNet<T>, fu: T, fd: T|
        {
            &&& replaces_param(up, net, which, p@.update(i, p@[i].update(j, param(up, which)@[i][j])))
            &&& replaces_param(
                down,
                net,
                which,
                p@.update(i, p@[i].update(j, param(down, which)@[i][j])),
            )
            &&& T::obeys_add_spec() ==> param(up, which)@[i][j] == p.entry(i, j).add_spec(h)
            &&& T::obeys_sub_spec() ==> param(down, which)@[i][j] == p.entry(i, j).sub_spec(h)
            &&& #[trigger] loss.ensures((&up,), fu)
            &&& #[trigger] loss.ensures((&down,), fd)
            &&& (T::obeys_add_spec() && T::obeys_sub_spec() && T::obeys_div_spec()) ==> g
                == fu.sub_spec(fd).div_spec(h.add_spec(h))
        }
}

/// The operations of the central differences of `loss` along parameter `which` are
/// defined: each entry plus and minus `h`, `h + h`, the difference of any two values
/// that `loss` gives, and its quotient by `h + h` (by any divisor, where `+` does not
/// follow its specification).
pub open spec fn loss_difference_defined<T, L>(loss: L, net: SimpleNet<T>, which: int, h: T) -> bool where
    T: core::ops::Add<Output = T> + core::ops::Sub<Output = T> + core::ops::Div<Output = T>,
    L: Fn(&SimpleNet<T>) -> T,
 {
    &&& forall|i: int, j: int|
        0 <= i < param(net, which).rows && 0 <= j < param(net, which).cols ==> (#[trigger] param(
            net,
            which,
        ).entry(i, j)).add_req(h) && param(net, which).entry(i, j).sub_req(h)
    &&& h.add_req(h)
    &&& forall|n1: SimpleNet<T>, n2: SimpleNet<T>, fu: T, fd: T|
        #![trigger loss.ensures((&n1,), fu), loss.ensures((&n2,), fd)]
        loss.ensures((&n1,), fu) && loss.ensures((&n2,), fd) ==> fu.sub_req(fd)
    &&& forall|a: T, d: T| (T::obeys_add_spec() ==> d == h.add_spec(h)) ==> #[trigger] a.div_req(d)
}

/// The view of a well-formed `m` holds its entries, in rows of `m.cols` entries.
proof fn lemma_view_entry<T>(m: Matrix<T>, i: int, j: int)
    requires
        m.wf(),
        0 <= i < m.rows,
    ensures
        m@[i][j] == m.entry(i, j),
        m@[i].len() == m.cols,
{
}

impl<T: Copy> SimpleNet<T> {
    /// A copy of the network in which parameter `which` holds a copy of `m`.
    pub fn with_param(&self, which: usize, m: &Matrix<T>) -> (r: SimpleNet<T>)
        requires
            self.wf(),
            which < 4,
            m.wf(),
            m.rows == param(*self, which as int).rows,
            m.cols == param(*self, which as int).cols,
        ensures
            r.wf(),
            replaces_param(r, *self, which as int, m@),
    {
        let w1 = if which == 0 {
            m.copy()
        } else {
            self.w1.copy()
        };
        let b1 = if which == 1 {
            m.copy()
        } else {
            self.b1.copy()
        };
        let w2 = if which == 2 {
            m.copy()
        } else {
            self.w2.copy()
        };
        let b2 = if which == 3 {
            m.copy()
        } else {
            self.b2.copy()
        };
        SimpleNet { w1, b1, w2, b2 }
    }
}

impl<T> SimpleNet<T> where
    T: Copy + core::ops::Add<Output = T> + core::ops::Sub<Output = T> + core::ops::Mul<
        Output = T,
    > + core::ops::Div<Output = T>,
 {
    /// The gradient of `loss` with respect to parameter `which`, by central differences
    /// with step `h`; `self` is never changed.
    pub fn param_gradient<L>(&self, which: usize, loss: &L, h: T) -> (r: Matrix<T>) where
        L: Fn(&SimpleNet<T>) -> T,
        requires
            self.wf(),
            which < 4,
            loss_difference_defined(*loss, *self, which as int, h),
            forall|n: SimpleNet<T>| n.wf() && n.same_shapes(self) ==> #[trigger] loss.requires((&n,)),
        ensures
            r.wf(),
            r.rows == param(*self, which as int).rows,
            r.cols == param(*self, which as int).cols,
            forall|i: int, j: int|
                0 <= i < r.rows && 0 <= j < r.cols ==> is_param_difference(
                    *loss,
                    *self,
                    which as int,
                    h,
                    i,
                    j,
                    #[trigger] r.entry(i, j),
                ),
    {
        let p = if which == 0 {
            &self.w1
        } else if which == 1 {
            &self.b1
        } else if which == 2 {
            &self.w2
        } else {
            &self.b2
        };
        let f = |m: &Matrix<T>| -> (v: T)
            requires
                m.wf(),
                m.rows == p.rows,
                m.cols == p.cols,
            ensures
                exists|n: SimpleNet<T>|
                    replaces_param(n, *self, which as int, m@) && #[trigger] loss.ensures(
                        (&n,),
                        v,
                    ),
            {
                let n = self.with_param(which, m);
                assert(n.same_shapes(self));
                loss(&n)
            };
        assert(*p == param(*self, which as int));
        assert forall|m1: Matrix<T>, m2: Matrix<T>, fu: T, fd: T|
            f.ensures((&m1,), fu) && f.ensures((&m2,), fd) implies fu.sub_req(fd) by {
            let n1 = choose|n: SimpleNet<T>|
                replaces_param(n, *self, which as int, m1@) && #[trigger] loss.ensures((&n,), fu);
            let n2 = choose|n: SimpleNet<T>|
                replaces_param(n, *self, which as int, m2@) && #[trigger] loss.ensures((&n,), fd);
        }
        let r = numerical_gradient(f, p, h);
        assert forall|i: int, j: int| 0 <= i < r.rows && 0 <= j < r.cols implies is_param_difference(
            *loss,
            *self,
            which as int,
            h,
            i,
            j,
            #[trigger] r.entry(i, j),
        ) by {
            let g = r.entry(i, j);
            assert(is_central_difference(f, *p, h, i, j, g));
            let (um, dm, fu, fd) = choose|um: Matrix<T>, dm: Matrix<T>, fu: T, fd: T|
                {
                    &&& differs_only_at(um, *p, i, j)
                    &&& differs_only_at(dm, *p, i, j)
                    &&& T::obeys_add_spec() ==> um.entry(i, j) == p.entry(i, j).add_spec(h)
                    &&& T::obeys_sub_spec() ==> dm.entry(i, j) == p.entry(i, j).sub_spec(h)
                    &&& #[trigger] f.ensures((&um,), fu)
                    &&& #[trigger] f.ensures((&dm,), fd)
                    &&& (T::obeys_add_spec() && T::obeys_sub_spec() && T::obeys_div_spec()) ==> g
                        == fu.sub_spec(fd).div_spec(h.add_spec(h))
                };
            let up = choose|n: SimpleNet<T>|
                replaces_param(n, *self, which as int, um@) && #[trigger] loss.ensures((&n,), fu);
            let down = choose|n: SimpleNet<T>|
                replaces_param(n, *self, which as int, dm@) && #[trigger] loss.ensures((&n,), fd);
            lemma_view_entry(um, i, j);
            lemma_view_entry(dm, i, j);
            assert(param(up, which as int)@ == um@);
            assert(param(down, which as int)@ == dm@);
        }
        r
    }

    /// The gradients of `loss` with respect to each of the four parameters, gathered
    /// in a network of the same shape.
    pub fn numerical_gradients<L>(&self, loss: &L, h: T) -> (r: SimpleNet<T>) where
        L: Fn(&SimpleNet<T>) -> T,
        requires
            self.wf(),
            forall|k: int| 0 <= k < 4 ==> #[trigger] loss_difference_defined(*loss, *self, k, h),
            forall|n: SimpleNet<T>| n.wf() && n.same_shapes(self) ==> #[trigger] loss.requires((&n,)),
        ensures
            r.wf(),
            r.same_shapes(self),
            forall|k: int, i: int, j: int|
                0 <= k < 4 && 0 <= i < param(r, k).rows && 0 <= j < param(r, k).cols
                    ==> is_param_difference(
                    *loss,
                    *self,
                    k,
                    h,
                    i,
                    j,
                    #[trigger] param(r, k).entry(i, j),
                ),
    {
        let w1 = self.param_gradient(0, loss, h);
        let b1 = self.param_gradient(1, loss, h);
        let w2 = self.param_gradient(2, loss, h);
        let b2 = self.param_gradient(3, loss, h);
        SimpleNet { w1, b1, w2, b2 }
    }
}

} // verus!
