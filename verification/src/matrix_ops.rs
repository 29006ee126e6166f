use crate::matrix::{Matrix, MatrixError, MatrixSize};
use vstd::prelude::*;

verus! {

impl core::ops::Add for MatrixSize {
    type Output = MatrixSize;

    /// Adds two pairs dimension by dimension.
    fn add(self, rhs: MatrixSize) -> (sum: MatrixSize) {
        MatrixSize { row: self.row + rhs.row, col: self.col + rhs.col }
    }
}

impl vstd::std_specs::ops::AddSpecImpl for MatrixSize {
    open spec fn obeys_add_spec() -> bool {
        true
    }

    open spec fn add_req(self, rhs: MatrixSize) -> bool {
        self.row + rhs.row <= usize::MAX && self.col + rhs.col <= usize::MAX
    }

    open spec fn add_spec(self, rhs: MatrixSize) -> MatrixSize {
        MatrixSize { row: (self.row + rhs.row) as usize, col: (self.col + rhs.col) as usize }
    }
}

/// `op` may be called on every pair of corresponding entries of `left` and
/// `right`.
pub open spec fn pairwise_callable<T, F: Fn(T, T) -> T>(
    op: F,
    left: Seq<Seq<T>>,
    right: Seq<Seq<T>>,
) -> bool {
    forall|r: int, c: int|
        0 <= r < left.len() && r < right.len() && 0 <= c < left[r].len() && c < right[r].len()
            ==> call_requires(op, (#[trigger] left[r][c], #[trigger] right[r][c]))
}

/// `out` has the shape of `left`, and each of its entries is what `op` may
/// give for the corresponding entries of `left` and `right`.
pub open spec fn pairwise_result<T, F: Fn(T, T) -> T>(
    op: F,
    left: Seq<Seq<T>>,
    right: Seq<Seq<T>>,
    out: Seq<Seq<T>>,
) -> bool {
    &&& out.len() == left.len()
    &&& forall|r: int| 0 <= r < left.len() ==> (#[trigger] out[r]).len() == left[r].len()
    &&& forall|r: int, c: int|
        0 <= r < left.len() && 0 <= c < left[r].len() ==> call_ensures(
            op,
            (left[r][c], right[r][c]),
            #[trigger] out[r][c],
        )
}

/// `op` may be called on every entry of `left` together with `scalar`.
pub open spec fn scalar_callable<T, F: Fn(T, T) -> T>(op: F, left: Seq<Seq<T>>, scalar: T) -> bool {
    forall|r: int, c: int|
        0 <= r < left.len() && 0 <= c < left[r].len() ==> call_requires(
            op,
            (#[trigger] left[r][c], scalar),
        )
}

/// `out` has the shape of `left`, and each of its entries is what `op` may
/// give for the corresponding entry of `left` and `scalar`, in this order.
pub open spec fn scalar_result<T, F: Fn(T, T) -> T>(
    op: F,
    left: Seq<Seq<T>>,
    scalar: T,
    out: Seq<Seq<T>>,
) -> bool {
    &&& out.len() == left.len()
    &&& forall|r: int| 0 <= r < left.len() ==> (#[trigger] out[r]).len() == left[r].len()
    &&& forall|r: int, c: int|
        0 <= r < left.len() && 0 <= c < left[r].len() ==> call_ensures(
            op,
            (left[r][c], scalar),
            #[trigger] out[r][c],
        )
}

impl<T: Copy> Matrix<T> {
    /// Applies `op` to each element and `scalar`, element first.
    fn with_scalar<F: Fn(T, T) -> T>(&self, scalar: T, op: F) -> (out: Result<Self, MatrixError>)
        requires
            self.well_formed(),
            scalar_callable(op, self@, scalar),
        ensures
            out.is_ok(),
            scalar_result(op, self@, scalar, out.unwrap()@),
            out.unwrap().well_formed(),
    {
        let size = self.get_size();
        let mut rows: Vec<Vec<T>> = Vec::new();
        let mut r: usize = 0;
        while r < size.row
            invariant
                self.well_formed(),
                scalar_callable(op, self@, scalar),
                size.row == self.rows(),
                size.col == self.cols(),
                r <= size.row,
                rows@.len() == r,
                forall|i: int| 0 <= i < r ==> (#[trigger] rows@[i])@.len() == size.col,
                forall|i: int, j: int|
                    0 <= i < r && 0 <= j < size.col ==> call_ensures(
                        op,
                        (self@[i][j], scalar),
                        #[trigger] rows@[i]@[j],
                    ),
            decreases size.row - r,
        {
            assert(self@[r as int].len() == self.cols());
            let mut row: Vec<T> = Vec::new();
            let mut c: usize = 0;
            while c < size.col
                invariant
                    self.well_formed(),
                    scalar_callable(op, self@, scalar),
                    size.row == self.rows(),
                    size.col == self.cols(),
                    self@[r as int].len() == self.cols(),
                    r < size.row,
                    c <= size.col,
                    row@.len() == c,
                    forall|j: int|
                        0 <= j < c ==> call_ensures(
                            op,
                            (self@[r as int][j], scalar),
                            #[trigger] row@[j],
                        ),
                decreases size.col - c,
            {
                let read = self.get_element(MatrixSize::new(r, c));
                let x = match read {
                    Ok(x) => x,
                    Err(error) => { return Err(error); },
                };
                row.push(op(x, scalar));
                c += 1;
            }
            rows.push(row);
            r += 1;
        }
        let made = Matrix::from_rows(rows);
        assert(made.well_formed());
        Ok(made)
    }

    /// Applies `op` to each pair of corresponding elements of two matrices of
    /// one shape.
    fn pairwise<F: Fn(T, T) -> T>(&self, other: &Matrix<T>, op: F) -> (out: Result<
        Self,
        MatrixError,
    >)
        requires
            self.well_formed(),
            other.well_formed(),
            pairwise_callable(op, self@, other@),
        ensures
            out.is_err() <==> self.rows() != other.rows() || self.cols() != other.cols(),
            out.is_err() ==> out == Err::<Self, MatrixError>(MatrixError::IncompatibleSizeAddition),
            out.is_ok() ==> pairwise_result(op, self@, other@, out.unwrap()@)
                && out.unwrap().well_formed(),
    {
        let size = self.get_size();
        if size != other.get_size() {
            return Err(MatrixError::IncompatibleSizeAddition);
        }
        let mut rows: Vec<Vec<T>> = Vec::new();
        let mut r: usize = 0;
        while r < size.row
            invariant
                self.well_formed(),
                other.well_formed(),
                pairwise_callable(op, self@, other@),
                size.row == self.rows(),
                size.col == self.cols(),
                self.rows() == other.rows(),
                self.cols() == other.cols(),
                r <= size.row,
                rows@.len() == r,
                forall|i: int| 0 <= i < r ==> (#[trigger] rows@[i])@.len() == size.col,
                forall|i: int, j: int|
                    0 <= i < r && 0 <= j < size.col ==> call_ensures(
                        op,
                        (self@[i][j], other@[i][j]),
                        #[trigger] rows@[i]@[j],
                    ),
            decreases size.row - r,
        {
            assert(self@[r as int].len() == self.cols());
            assert(other@[r as int].len() == other.cols());
            let mut row: Vec<T> = Vec::new();
            let mut c: usize = 0;
            while c < size.col
                invariant
                    self.well_formed(),
                    other.well_formed(),
                    pairwise_callable(op, self@, other@),
                    size.row == self.rows(),
                    size.col == self.cols(),
                    self.rows() == other.rows(),
                    self.cols() == other.cols(),
                    self@[r as int].len() == self.cols(),
                    other@[r as int].len() == other.cols(),
                    r < size.row,
                    c <= size.col,
                    row@.len() == c,
                    forall|j: int|
                        0 <= j < c ==> call_ensures(
                            op,
                            (self@[r as int][j], other@[r as int][j]),
                            #[trigger] row@[j],
                        ),
                decreases size.col - c,
            {
                let x = match self.get_element(MatrixSize::new(r, c)) {
                    Ok(x) => x,
                    Err(error) => { return Err(error); },
                };
                let y = match other.get_element(MatrixSize::new(r, c)) {
                    Ok(y) => y,
                    Err(error) => { return Err(error); },
                };
                row.push(op(x, y));
                c += 1;
            }
            rows.push(row);
            r += 1;
        }
        let made = Matrix::from_rows(rows);
        assert(made.well_formed());
        Ok(made)
    }

    /// Elementwise sum of two matrices of one shape, each entry by `plus`.
    pub fn matrix_add<F: Fn(T, T) -> T>(&self, other: &Matrix<T>, plus: F) -> (sum: Result<
        Self,
        MatrixError,
    >)
        requires
            self.well_formed(),
            other.well_formed(),
            pairwise_callable(plus, self@, other@),
        ensures
            sum.is_err() <==> self.rows() != other.rows() || self.cols() != other.cols(),
            sum.is_err() ==> sum == Err::<Self, MatrixError>(MatrixError::IncompatibleSizeAddition),
            sum.is_ok() ==> pairwise_result(plus, self@, other@, sum.unwrap()@)
                && sum.unwrap().well_formed(),
    {
        self.pairwise(other, plus)
    }

    /// Elementwise difference of two matrices of one shape, each entry by
    /// `minus`. A mismatch of shapes is reported with the error of addition.
    pub fn matrix_sub<F: Fn(T, T) -> T>(&self, other: &Matrix<T>, minus: F) -> (difference: Result<
        Self,
        MatrixError,
    >)
        requires
            self.well_formed(),
            other.well_formed(),
            pairwise_callable(minus, self@, other@),
        ensures
            difference.is_err() <==> self.rows() != other.rows() || self.cols() != other.cols(),
            difference.is_err() ==> difference == Err::<Self, MatrixError>(
                MatrixError::IncompatibleSizeAddition,
            ),
            difference.is_ok() ==> pairwise_result(minus, self@, other@, difference.unwrap()@)
                && difference.unwrap().well_formed(),
    {
        self.pairwise(other, minus)
    }

    /// Adds `other` to every element: each entry is `plus(element, other)`.
    pub fn scalar_add<F: Fn(T, T) -> T>(&self, other: T, plus: F) -> (out: Result<
        Self,
        MatrixError,
    >)
        requires
            self.well_formed(),
            scalar_callable(plus, self@, other),
        ensures
            out.is_ok(),
            scalar_result(plus, self@, other, out.unwrap()@),
            out.unwrap().well_formed(),
    {
        self.with_scalar(other, plus)
    }

    /// Subtracts `other` from every element: each entry is
    /// `minus(element, other)`.
    pub fn scalar_sub<F: Fn(T, T) -> T>(&self, other: T, minus: F) -> (out: Result<
        Self,
        MatrixError,
    >)
        requires
            self.well_formed(),
            scalar_callable(minus, self@, other),
        ensures
            out.is_ok(),
            scalar_result(minus, self@, other, out.unwrap()@),
            out.unwrap().well_formed(),
    {
        self.with_scalar(other, minus)
    }

    /// Multiplies every element by `other`: each entry is
    /// `times(element, other)`.
    pub fn scalar_mul<F: Fn(T, T) -> T>(&self, other: T, times: F) -> (out: Result<
        Self,
        MatrixError,
    >)
        requires
            self.well_formed(),
            scalar_callable(times, self@, other),
        ensures
            out.is_ok(),
            scalar_result(times, self@, other, out.unwrap()@),
            out.unwrap().well_formed(),
    {
        self.with_scalar(other, times)
    }

    /// Divides every element by `other`: each entry is
    /// `divide(element, other)`. A zero divisor is no special case here; what
    /// it gives is up to `divide`.
    pub fn scalar_div<F: Fn(T, T) -> T>(&self, other: T, divide: F) -> (out: Result<
        Self,
        MatrixError,
    >)
        requires
            self.well_formed(),
            scalar_callable(divide, self@, other),
        ensures
            out.is_ok(),
            scalar_result(divide, self@, other, out.unwrap()@),
            out.unwrap().well_formed(),
    {
        self.with_scalar(other, divide)
    }

    /// The negated matrix, defined as the scalar product with `minus_one`.
    pub fn negation<F: Fn(T, T) -> T>(&self, minus_one: T, times: F) -> (out: Result<
        Self,
        MatrixError,
    >)
        requires
            self.well_formed(),
            scalar_callable(times, self@, minus_one),
        ensures
            out.is_ok(),
            scalar_result(times, self@, minus_one, out.unwrap()@),
            out.unwrap().well_formed(),
    {
        self.scalar_mul(minus_one, times)
    }
}

} // verus!
