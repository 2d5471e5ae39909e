use vstd::prelude::*;
use vstd::std_specs::convert::FromSpec;
use vstd::std_specs::ops::{AddSpec, MulSpec, SubSpec};

verus! {

/// The error raised when the shapes of two operands do not fit the requested operation.
#[derive(Debug, Clone, Copy, PartialEq, Eq, Structural)]
pub struct ShapeMismatch;

/// A dense row-major matrix: `data` holds `rows` rows of `cols` entries each.
#[derive(Debug, Clone)]
pub struct Matrix<T> {
    pub data: Vec<Vec<T>>,
    pub rows: usize,
    pub cols: usize,
}

/// The product of entry `(i, k)` of `a` with entry `(k, j)` of `b`.
pub open spec fn product<T: core::ops::Mul<Output = T>>(
    a: Seq<Seq<T>>,
    b: Seq<Seq<T>>,
    i: int,
    j: int,
    k: int,
) -> T {
    a[i][k].mul_spec(b[k][j])
}

/// The sum of the first `n` products of row `i` of `a` with column `j` of `b`,
/// accumulated from left to right (defined for `n >= 1`).
pub open spec fn partial_dot<T: core::ops::Mul<Output = T> + core::ops::Add<Output = T>>(
    a: Seq<Seq<T>>,
    b: Seq<Seq<T>>,
    i: int,
    j: int,
    n: int,
) -> T
    decreases n,
{
    if n <= 1 {
        product(a, b, i, j, 0)
    } else {
        partial_dot(a, b, i, j, n - 1).add_spec(product(a, b, i, j, n - 1))
    }
}

impl<T> View for Matrix<T> {
    type V = Seq<Seq<T>>;

    /// The rows of the matrix, as sequences.
    open spec fn view(&self) -> Seq<Seq<T>> {
        Seq::new(self.data@.len(), |i: int| self.data@[i]@)
    }
}

impl<T> Matrix<T> {
    /// Well-formed: exactly `rows` rows, each of exactly `cols` entries.
    pub open spec fn wf(&self) -> bool {
        &&& self.data@.len() == self.rows
        &&& forall|i: int| 0 <= i < self.rows ==> (#[trigger] self.data@[i])@.len() == self.cols
    }

    pub open spec fn entry(&self, i: int, j: int) -> T {
        self.data@[i]@[j]
    }

    /// The row of `other` that is added to row `i` of `self`: the same row when the
    /// shapes agree, else the single row of `other`.
    pub open spec fn source_row(other: &Matrix<T>, i: int) -> int {
        if other.rows == 1 {
            0
        } else {
            i
        }
    }

    /// `other` can be added to `self`: the shapes agree, or `other` is a single row as
    /// wide as `self`.
    pub open spec fn add_compatible(&self, other: &Matrix<T>) -> bool {
        ||| (self.rows == other.rows && self.cols == other.cols)
        ||| (other.rows == 1 && self.cols == other.cols)
    }

    pub fn shape(&self) -> (r: (usize, usize))
        ensures
            r == (self.rows, self.cols),
    {
        (self.rows, self.cols)
    }

    /// Builds a matrix from its rows, which must all have the same length.
    pub fn from_vec(data: Vec<Vec<T>>) -> (r: Result<Matrix<T>, ShapeMismatch>)
        ensures
            r is Ok <==> forall|i: int|
                0 <= i < data@.len() ==> (#[trigger] data@[i])@.len() == data@[0]@.len(),
            r matches Ok(m) ==> {
                &&& m.wf()
                &&& m.rows == data@.len()
                &&& m.data@ == data@
                &&& m.cols == (if data@.len() == 0 {
                    0
                } else {
                    data@[0]@.len()
                })
            },
    {
        let rows = data.len();
        let cols = if rows == 0 {
            0
        } else {
            data[0].len()
        };
        let mut i: usize = 0;
        while i < rows
            invariant
                rows == data@.len(),
                i <= rows,
                rows > 0 ==> cols == data@[0]@.len(),
                forall|k: int| 0 <= k < i ==> (#[trigger] data@[k])@.len() == cols,
            decreases rows - i,
        {
            if data[i].len() != cols {
                return Err(ShapeMismatch);
            }
            i = i + 1;
        }
        Ok(Matrix { data, rows, cols })
    }
}

/// A copy of `v`.
pub fn copy_vec<T: Copy>(v: &Vec<T>) -> (r: Vec<T>)
    ensures
        r@ == v@,
{
    let mut r: Vec<T> = Vec::new();
    let mut k: usize = 0;
    while k < v.len()
        invariant
            k <= v@.len(),
            r@ == v@.subrange(0, k as int),
        decreases v@.len() - k,
    {
        r.push(v[k]);
        k = k + 1;
        assert(r@ =~= v@.subrange(0, k as int));
    }
    assert(r@ =~= v@);
    r
}

/// The entries of `v` at `indices`, in the order of `indices`.
pub fn select<T: Copy>(v: &Vec<T>, indices: &Vec<usize>) -> (r: Vec<T>)
    requires
        forall|k: int| 0 <= k < indices@.len() ==> #[trigger] indices@[k] < v@.len(),
    ensures
        r@.len() == indices@.len(),
        forall|k: int| 0 <= k < indices@.len() ==> #[trigger] r@[k] == v@[indices@[k] as int],
{
    let mut r: Vec<T> = Vec::new();
    let mut k: usize = 0;
    while k < indices.len()
        invariant
            forall|k: int| 0 <= k < indices@.len() ==> #[trigger] indices@[k] < v@.len(),
            k <= indices@.len(),
            r@.len() == k,
            forall|l: int| 0 <= l < k ==> #[trigger] r@[l] == v@[indices@[l] as int],
        decreases indices@.len() - k,
    {
        r.push(v[indices[k]]);
        k = k + 1;
    }
    r
}

impl<T: Copy> Matrix<T> {
    /// The rows of the matrix at `indices`, in the order of `indices`.
    pub fn select_rows(&self, indices: &Vec<usize>) -> (r: Matrix<T>)
        requires
            self.wf(),
            forall|k: int| 0 <= k < indices@.len() ==> #[trigger] indices@[k] < self.rows,
        ensures
            r.wf(),
            r.rows == indices@.len(),
            r.cols == self.cols,
            forall|k: int| 0 <= k < indices@.len() ==> #[trigger] r@[k] == self@[indices@[k] as int],
    {
        let mut data: Vec<Vec<T>> = Vec::new();
        let mut k: usize = 0;
        while k < indices.len()
            invariant
                self.wf(),
                forall|k: int| 0 <= k < indices@.len() ==> #[trigger] indices@[k] < self.rows,
                k <= indices@.len(),
                data@.len() == k,
                forall|l: int|
                    0 <= l < k ==> (#[trigger] data@[l])@ == self.data@[indices@[l] as int]@,
            decreases indices@.len() - k,
        {
            let row = copy_vec(&self.data[indices[k]]);
            data.push(row);
            k = k + 1;
        }
        Matrix { data, rows: indices.len(), cols: self.cols }
    }

    /// A `rows` x `cols` matrix with every entry equal to `val`.
    pub fn new(rows: usize, cols: usize, val: T) -> (r: Matrix<T>)
        ensures
            r.wf(),
            r.rows == rows,
            r.cols == cols,
            forall|i: int, j: int| 0 <= i < rows && 0 <= j < cols ==> #[trigger] r.entry(i, j) == val,
    {
        let mut data: Vec<Vec<T>> = Vec::new();
        let mut i: usize = 0;
        while i < rows
            invariant
                i <= rows,
                data@.len() == i,
                forall|k: int| 0 <= k < i ==> (#[trigger] data@[k])@.len() == cols,
                forall|k: int, j: int| 0 <= k < i && 0 <= j < cols ==> #[trigger] data@[k]@[j] == val,
            decreases rows - i,
        {
            let mut row: Vec<T> = Vec::new();
            let mut j: usize = 0;
            while j < cols
                invariant
                    j <= cols,
                    row@.len() == j,
                    forall|l: int| 0 <= l < j ==> #[trigger] row@[l] == val,
                decreases cols - j,
            {
                row.push(val);
                j = j + 1;
            }
            data.push(row);
            i = i + 1;
        }
        Matrix { data, rows, cols }
    }

    /// A `rows` x `cols` matrix read row by row from `values`, starting at index `start`.
    pub fn from_flat(values: &Vec<T>, start: usize, rows: usize, cols: usize) -> (r: Matrix<T>)
        requires
            start + rows * cols <= values@.len(),
        ensures
            r.wf(),
            r.rows == rows,
            r.cols == cols,
            forall|i: int, j: int|
                0 <= i < rows && 0 <= j < cols ==> #[trigger] r.entry(i, j) == values@[start + i
                    * cols + j],
    {
        let mut data: Vec<Vec<T>> = Vec::new();
        let mut i: usize = 0;
        let mut p: usize = start;
        while i < rows
            invariant
                values.len() == values@.len(),
                start + rows * cols <= values@.len(),
                i <= rows,
                p == start + i * cols,
                data@.len() == i,
                forall|k: int| 0 <= k < i ==> (#[trigger] data@[k])@.len() == cols,
                forall|k: int, j: int|
                    0 <= k < i && 0 <= j < cols ==> #[trigger] data@[k]@[j] == values@[start + k
                        * cols + j],
            decreases rows - i,
        {
            let mut row: Vec<T> = Vec::new();
            let mut j: usize = 0;
            while j < cols
                invariant
                    values.len() == values@.len(),
                    start + rows * cols <= values@.len(),
                    i < rows,
                    j <= cols,
                    p == start + i * cols + j,
                    row@.len() == j,
                    forall|l: int| 0 <= l < j ==> #[trigger] row@[l] == values@[start + i * cols + l],
                decreases cols - j,
            {
                assert(i * cols + j < rows * cols) by (nonlinear_arith)
                    requires
                        i < rows,
                        j < cols,
                ;
                row.push(values[p]);
                p = p + 1;
                j = j + 1;
            }
            assert(start + i * cols + cols == start + (i + 1) * cols) by (nonlinear_arith);
            data.push(row);
            i = i + 1;
        }
        Matrix { data, rows, cols }
    }

    /// A copy of the matrix.
    pub fn copy(&self) -> (r: Matrix<T>)
        requires
            self.wf(),
        ensures
            r.wf(),
            r.rows == self.rows,
            r.cols == self.cols,
            r@ == self@,
    {
        let mut data: Vec<Vec<T>> = Vec::new();
        let mut k: usize = 0;
        while k < self.rows
            invariant
                self.wf(),
                k <= self.rows,
                data@.len() == k,
                forall|l: int| 0 <= l < k ==> (#[trigger] data@[l])@ == self.data@[l]@,
            decreases self.rows - k,
        {
            data.push(copy_vec(&self.data[k]));
            k = k + 1;
        }
        let r = Matrix { data, rows: self.rows, cols: self.cols };
        assert(r@ =~= self@);
        r
    }

    /// A copy of the matrix in which entry `(i, j)` holds `val`; `self` is left as it is.
    pub fn with_entry(&self, i: usize, j: usize, val: T) -> (r: Matrix<T>)
        requires
            self.wf(),
            i < self.rows,
            j < self.cols,
        ensures
            r.wf(),
            r.rows == self.rows,
            r.cols == self.cols,
            r@ == self@.update(i as int, self@[i as int].update(j as int, val)),
    {
        let mut data: Vec<Vec<T>> = Vec::new();
        let mut k: usize = 0;
        while k < self.rows
            invariant
                self.wf(),
                i < self.rows,
                j < self.cols,
                k <= self.rows,
                data@.len() == k,
                forall|l: int|
                    0 <= l < k ==> (#[trigger] data@[l])@ == (if l == i {
                        self.data@[l]@.update(j as int, val)
                    } else {
                        self.data@[l]@
                    }),
            decreases self.rows - k,
        {
            let src = &self.data[k];
            let mut row: Vec<T> = Vec::new();
            let mut l: usize = 0;
            while l < self.cols
                invariant
                    self.wf(),
                    k < self.rows,
                    src@ == self.data@[k as int]@,
                    l <= self.cols,
                    row@.len() == l,
                    forall|m: int|
                        0 <= m < l ==> #[trigger] row@[m] == (if k == i && m == j {
                            val
                        } else {
                            src@[m]
                        }),
                decreases self.cols - l,
            {
                if k == i && l == j {
                    row.push(val);
                } else {
                    row.push(src[l]);
                }
                l = l + 1;
            }
            proof {
                if k == i {
                    assert(row@ =~= self.data@[k as int]@.update(j as int, val));
                } else {
                    assert(row@ =~= self.data@[k as int]@);
                }
            }
            data.push(row);
            k = k + 1;
        }
        let r = Matrix { data, rows: self.rows, cols: self.cols };
        assert(r@ =~= self@.update(i as int, self@[i as int].update(j as int, val)));
        r
    }

    /// A new matrix of the same shape, holding `func` applied to every entry.
    pub fn map<U, F: Fn(T) -> U>(&self, func: F) -> (r: Matrix<U>)
        requires
            self.wf(),
            forall|i: int, j: int|
                0 <= i < self.rows && 0 <= j < self.cols ==> func.requires((self.entry(i, j),)),
        ensures
            r.wf(),
            r.rows == self.rows,
            r.cols == self.cols,
            forall|i: int, j: int|
                0 <= i < self.rows && 0 <= j < self.cols ==> func.ensures(
                    (self.entry(i, j),),
                    #[trigger] r.entry(i, j),
                ),
    {
        let mut data: Vec<Vec<U>> = Vec::new();
        let mut i: usize = 0;
        while i < self.rows
            invariant
                self.wf(),
                forall|i: int, j: int|
                    0 <= i < self.rows && 0 <= j < self.cols ==> func.requires(
                        (self.entry(i, j),),
                    ),
                i <= self.rows,
                data@.len() == i,
                forall|k: int| 0 <= k < i ==> (#[trigger] data@[k])@.len() == self.cols,
                forall|k: int, j: int|
                    0 <= k < i && 0 <= j < self.cols ==> func.ensures(
                        (self.entry(k, j),),
                        #[trigger] data@[k]@[j],
                    ),
            decreases self.rows - i,
        {
            let src = &self.data[i];
            let mut row: Vec<U> = Vec::new();
            let mut j: usize = 0;
            while j < self.cols
                invariant
                    self.wf(),
                    i < self.rows,
                    src@ == self.data@[i as int]@,
                    forall|i: int, j: int|
                        0 <= i < self.rows && 0 <= j < self.cols ==> func.requires(
                            (self.entry(i, j),),
                        ),
                    j <= self.cols,
                    row@.len() == j,
                    forall|l: int|
                        0 <= l < j ==> func.ensures((self.entry(i as int, l),), #[trigger] row@[l]),
                decreases self.cols - j,
            {
                assert(src@[j as int] == self.entry(i as int, j as int));
                row.push(func(src[j]));
                j = j + 1;
            }
            data.push(row);
            i = i + 1;
        }
        Matrix { data, rows: self.rows, cols: self.cols }
    }
}

impl<T: core::ops::Add<Output = T>> Matrix<T> {
    /// Each addition of `self + other` is defined on its operands.
    pub open spec fn add_defined(&self, other: &Matrix<T>) -> bool {
        forall|i: int, j: int|
            0 <= i < self.rows && 0 <= j < self.cols ==> #[trigger] self.entry(i, j).add_req(
                other.entry(Self::source_row(other, i), j),
            )
    }

    /// `m` is `self + other`, with a single-row `other` added to every row.
    pub open spec fn is_sum(&self, other: &Matrix<T>, m: Matrix<T>) -> bool {
        &&& m.wf()
        &&& m.rows == self.rows
        &&& m.cols == self.cols
        &&& T::obeys_add_spec() ==> forall|i: int, j: int|
            0 <= i < self.rows && 0 <= j < self.cols ==> #[trigger] m.entry(i, j) == self.entry(
                i,
                j,
            ).add_spec(other.entry(Self::source_row(other, i), j))
    }
}

impl<T: Copy + core::ops::Add<Output = T>> Matrix<T> {
    /// The sum of `self` and `other`, entry by entry when the shapes agree; when `other`
    /// is a single row as wide as `self`, that row is added to every row of `self`.
    #[verifier::loop_isolation(false)]
    pub fn add(&self, other: &Matrix<T>) -> (r: Result<Matrix<T>, ShapeMismatch>)
        requires
            self.wf(),
            other.wf(),
            self.add_compatible(other) ==> self.add_defined(other),
        ensures
            r is Ok <==> self.add_compatible(other),
            r matches Ok(m) ==> self.is_sum(other, m),
    {
        if !((self.rows == other.rows && self.cols == other.cols) || (other.rows == 1
            && self.cols == other.cols)) {
            return Err(ShapeMismatch);
        }
        let mut data: Vec<Vec<T>> = Vec::new();
        let mut i: usize = 0;
        while i < self.rows
            invariant
                i <= self.rows,
                data@.len() == i,
                forall|k: int| 0 <= k < i ==> (#[trigger] data@[k])@.len() == self.cols,
                T::obeys_add_spec() ==> forall|k: int, j: int|
                    0 <= k < i && 0 <= j < self.cols ==> #[trigger] data@[k]@[j] == self.entry(
                        k,
                        j,
                    ).add_spec(other.entry(Self::source_row(other, k), j)),
            decreases self.rows - i,
        {
            let src: usize = if other.rows == 1 {
                0
            } else {
                i
            };
            let mut row: Vec<T> = Vec::new();
            let mut j: usize = 0;
            while j < self.cols
                invariant
                    j <= self.cols,
                    row@.len() == j,
                    T::obeys_add_spec() ==> forall|l: int|
                        0 <= l < j ==> #[trigger] row@[l] == self.entry(i as int, l).add_spec(
                            other.entry(src as int, l),
                        ),
                decreases self.cols - j,
            {
                assert(src as int == Self::source_row(other, i as int));
                assert(self.entry(i as int, j as int).add_req(
                    other.entry(Self::source_row(other, i as int), j as int),
                ));
                row.push(self.data[i][j] + other.data[src][j]);
                j = j + 1;
            }
            data.push(row);
            i = i + 1;
        }
        Ok(Matrix { data, rows: self.rows, cols: self.cols })
    }
}

impl<T> Matrix<T> where
    T: Copy + core::ops::Add<Output = T> + core::ops::Mul<Output = T> + From<u32>,
 {
    /// `m` is the product `self * other`: each entry sums its products from left to
    /// right; with an empty inner dimension every entry is one value, `T::from(0)`.
    pub open spec fn is_product(&self, other: &Matrix<T>, m: Matrix<T>) -> bool {
        &&& m.wf()
        &&& m.rows == self.rows
        &&& m.cols == other.cols
        &&& (T::obeys_add_spec() && T::obeys_mul_spec() && self.cols > 0) ==> forall|
            i: int,
            j: int,
        |
            0 <= i < self.rows && 0 <= j < other.cols ==> #[trigger] m.entry(i, j) == partial_dot(
                self@,
                other@,
                i,
                j,
                self.cols as int,
            )
        &&& self.cols == 0 ==> forall|i: int, j: int|
            0 <= i < self.rows && 0 <= j < other.cols ==> #[trigger] m.entry(i, j) == m.entry(0, 0)
        &&& (self.cols == 0 && T::obeys_from_spec()) ==> forall|i: int, j: int|
            0 <= i < self.rows && 0 <= j < other.cols ==> #[trigger] m.entry(i, j) == T::from_spec(
                0u32,
            )
    }

    /// The operations of the product `self * other` are defined on their operands:
    /// where `+` and `*` follow their specifications, on each product and partial sum;
    /// otherwise on all values.
    pub open spec fn dot_defined(&self, other: &Matrix<T>) -> bool {
        &&& forall|i: int, j: int, k: int|
            0 <= i < self.rows && 0 <= j < other.cols && 0 <= k < self.cols
                ==> #[trigger] self.entry(i, k).mul_req(other.entry(k, j))
        &&& (T::obeys_add_spec() && T::obeys_mul_spec()) ==> forall|i: int, j: int, k: int|
            0 <= i < self.rows && 0 <= j < other.cols && 1 <= k < self.cols
                ==> #[trigger] partial_dot(self@, other@, i, j, k).add_req(
                product(self@, other@, i, j, k),
            )
        &&& !(T::obeys_add_spec() && T::obeys_mul_spec()) ==> forall|a: T, b: T|
            #[trigger] a.add_req(b)
    }

    /// The matrix product `self * other`; defined when `self.cols == other.rows`.
    /// Each entry sums its products from left to right. With an empty inner
    /// dimension every entry is `T::from(0)`.
    #[verifier::loop_isolation(false)]
    pub fn dot(&self, other: &Matrix<T>) -> (r: Result<Matrix<T>, ShapeMismatch>)
        requires
            self.wf(),
            other.wf(),
            self.cols == other.rows ==> self.dot_defined(other),
        ensures
            r is Ok <==> self.cols == other.rows,
            r matches Ok(m) ==> self.is_product(other, m),
    {
        if self.cols != other.rows {
            return Err(ShapeMismatch);
        }
        if self.cols == 0 {
            let zero = T::from(0u32);
            return Ok(Matrix::new(self.rows, other.cols, zero));
        }
        let n = self.cols;
        let mut data: Vec<Vec<T>> = Vec::new();
        let mut i: usize = 0;
        while i < self.rows
            invariant
                i <= self.rows,
                data@.len() == i,
                forall|k: int| 0 <= k < i ==> (#[trigger] data@[k])@.len() == other.cols,
                T::obeys_add_spec() && T::obeys_mul_spec() ==> forall|k: int, j: int|
                    0 <= k < i && 0 <= j < other.cols ==> #[trigger] data@[k]@[j] == partial_dot(
                        self@,
                        other@,
                        k,
                        j,
                        n as int,
                    ),
            decreases self.rows - i,
        {
            let mut row: Vec<T> = Vec::new();
            let mut j: usize = 0;
            while j < other.cols
                invariant
                    j <= other.cols,
                    row@.len() == j,
                    T::obeys_add_spec() && T::obeys_mul_spec() ==> forall|l: int|
                        0 <= l < j ==> #[trigger] row@[l] == partial_dot(
                            self@,
                            other@,
                            i as int,
                            l,
                            n as int,
                        ),
                decreases other.cols - j,
            {
                assert(self.entry(i as int, 0).mul_req(other.entry(0, j as int)));
                let mut acc = self.data[i][0] * other.data[0][j];
                let mut k: usize = 1;
                while k < n
                    invariant
                        1 <= k <= n,
                        T::obeys_add_spec() && T::obeys_mul_spec() ==> acc == partial_dot(
                            self@,
                            other@,
                            i as int,
                            j as int,
                            k as int,
                        ),
                    decreases n - k,
                {
                    assert(self.entry(i as int, k as int).mul_req(other.entry(k as int, j as int)));
                    let p = self.data[i][k] * other.data[k][j];
                    proof {
                        if T::obeys_add_spec() && T::obeys_mul_spec() {
                            assert(partial_dot(self@, other@, i as int, j as int, k as int).add_req(
                                product(self@, other@, i as int, j as int, k as int),
                            ));
                        } else {
                            assert(acc.add_req(p));
                        }
                    }
                    acc = acc + p;
                    k = k + 1;
                }
                row.push(acc);
                j = j + 1;
            }
            data.push(row);
            i = i + 1;
        }
        Ok(Matrix { data, rows: self.rows, cols: other.cols })
    }
}

impl<T> Matrix<T> where T: Copy + core::ops::Sub<Output = T> + core::ops::Mul<Output = T> {
    /// The operations of `self - factor * other` are defined on their operands: each
    /// product, and each difference (any difference, where `*` does not follow its
    /// specification).
    pub open spec fn sub_scaled_defined(&self, other: &Matrix<T>, factor: T) -> bool {
        &&& forall|i: int, j: int|
            0 <= i < self.rows && 0 <= j < self.cols ==> factor.mul_req(#[trigger] other.entry(i, j))
        &&& T::obeys_mul_spec() ==> forall|i: int, j: int|
            0 <= i < self.rows && 0 <= j < self.cols ==> #[trigger] self.entry(i, j).sub_req(
                factor.mul_spec(other.entry(i, j)),
            )
        &&& !T::obeys_mul_spec() ==> forall|a: T, b: T| #[trigger] a.sub_req(b)
    }

    /// `self - factor * other`, entry by entry; the shapes must agree.
    #[verifier::loop_isolation(false)]
    pub fn sub_scaled(&self, other: &Matrix<T>, factor: T) -> (r: Result<Matrix<T>, ShapeMismatch>)
        requires
            self.wf(),
            other.wf(),
            self.rows == other.rows && self.cols == other.cols ==> self.sub_scaled_defined(
                other,
                factor,
            ),
        ensures
            r is Ok <==> self.rows == other.rows && self.cols == other.cols,
            r matches Ok(m) ==> {
                &&& m.wf()
                &&& m.rows == self.rows
                &&& m.cols == self.cols
                &&& (T::obeys_sub_spec() && T::obeys_mul_spec()) ==> forall|i: int, j: int|
                    0 <= i < self.rows && 0 <= j < self.cols ==> #[trigger] m.entry(i, j)
                        == self.entry(i, j).sub_spec(factor.mul_spec(other.entry(i, j)))
            },
    {
        if self.rows != other.rows || self.cols != other.cols {
            return Err(ShapeMismatch);
        }
        let mut data: Vec<Vec<T>> = Vec::new();
        let mut i: usize = 0;
        while i < self.rows
            invariant
                i <= self.rows,
                data@.len() == i,
                forall|k: int| 0 <= k < i ==> (#[trigger] data@[k])@.len() == self.cols,
                (T::obeys_sub_spec() && T::obeys_mul_spec()) ==> forall|k: int, j: int|
                    0 <= k < i && 0 <= j < self.cols ==> #[trigger] data@[k]@[j] == self.entry(
                        k,
                        j,
                    ).sub_spec(factor.mul_spec(other.entry(k, j))),
            decreases self.rows - i,
        {
            let mut row: Vec<T> = Vec::new();
            let mut j: usize = 0;
            while j < self.cols
                invariant
                    j <= self.cols,
                    row@.len() == j,
                    (T::obeys_sub_spec() && T::obeys_mul_spec()) ==> forall|l: int|
                        0 <= l < j ==> #[trigger] row@[l] == self.entry(i as int, l).sub_spec(
                            factor.mul_spec(other.entry(i as int, l)),
                        ),
                decreases self.cols - j,
            {
                assert(factor.mul_req(other.entry(i as int, j as int)));
                let step = factor * other.data[i][j];
                proof {
                    if T::obeys_mul_spec() {
                        assert(self.entry(i as int, j as int).sub_req(
                            factor.mul_spec(other.entry(i as int, j as int)),
                        ));
                    }
                }
                row.push(self.data[i][j] - step);
                j = j + 1;
            }
            data.push(row);
            i = i + 1;
        }
        Ok(Matrix { data, rows: self.rows, cols: self.cols })
    }
}

} // verus!
