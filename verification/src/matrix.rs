use vstd::prelude::*;

verus! {

/// A pair `(row, col)`, used both as a shape and as a coordinate.
#[derive(PartialEq, Eq, Structural, Clone, Copy, Debug)]
pub struct MatrixSize {
    pub row: usize,
    pub col: usize,
}

/// A coordinate is the same pair as a shape: a shape is the coordinate one
/// past the last valid index in each dimension.
pub type MatrixIndex = MatrixSize;

/// The ways in which an operation on a matrix fails.
#[derive(PartialEq, Eq, Structural, Clone, Copy, Debug)]
pub enum MatrixError {
    ZeroSizeMatrix,
    IncompatibleSizeMultiplication,
    IncompatibleSizeAddition,
    IncompatibleSizeSubtraction,
    IndexOutOfBound,
    NonRectangularElementVector,
    DeterminantOfNonSquareMatrix,
}

impl MatrixSize {
    pub fn new(row: usize, col: usize) -> (size: MatrixSize)
        ensures
            size.row == row,
            size.col == col,
    {
        Self { row, col }
    }

    /// Whether `self` lies strictly below `other` in both dimensions at once.
    pub open spec fn below(self, other: MatrixSize) -> bool {
        self.row < other.row && self.col < other.col
    }

    pub fn strictly_less_than(&self, other: &Self) -> (less: bool)
        ensures
            less == self.below(*other),
    {
        self.row < other.row && self.col < other.col
    }
}

/// The grid of `rows` rows and `cols` columns that holds `fill` everywhere.
pub open spec fn filled_grid<T>(rows: nat, cols: nat, fill: T) -> Seq<Seq<T>> {
    Seq::new(rows, |r: int| Seq::new(cols, |c: int| fill))
}

/// Every row of `grid` is as long as its first row.
pub open spec fn rectangular<T>(grid: Seq<Seq<T>>) -> bool {
    forall|r: int| 0 <= r < grid.len() ==> (#[trigger] grid[r]).len() == grid[0].len()
}

/// The rows handed to a constructor, each as a sequence.
pub open spec fn grid_of<T>(rows: Seq<Vec<T>>) -> Seq<Seq<T>> {
    Seq::new(rows.len(), |r: int| rows[r]@)
}

/// What building a matrix from the rows `grid` gives: the grid itself, or
/// the reason for which it is refused.
pub open spec fn from_vec_outcome<T>(grid: Seq<Seq<T>>) -> Result<Seq<Seq<T>>, MatrixError> {
    if grid.len() == 0 || grid[0].len() == 0 {
        Err(MatrixError::ZeroSizeMatrix)
    } else if !rectangular(grid) {
        Err(MatrixError::NonRectangularElementVector)
    } else {
        Ok(grid)
    }
}

/// The square grid of side `n` with `one` on the main diagonal and `zero`
/// elsewhere.
pub open spec fn identity_grid<T>(n: nat, zero: T, one: T) -> Seq<Seq<T>> {
    Seq::new(n, |r: int| Seq::new(n, |c: int| if r == c { one } else { zero }))
}

/// The block of `rows` by `cols` entries of `grid` that starts at
/// `(start_row, start_col)`.
pub open spec fn sub_grid<T>(
    grid: Seq<Seq<T>>,
    start_row: int,
    start_col: int,
    rows: nat,
    cols: nat,
) -> Seq<Seq<T>> {
    Seq::new(rows, |r: int| Seq::new(cols, |c: int| grid[start_row + r][start_col + c]))
}

/// What cutting the block of shape `size` at `start` out of a well-formed
/// `grid` gives. The block must end inside the grid in each dimension, and
/// may not have both dimensions zero.
pub open spec fn swizzle_outcome<T>(grid: Seq<Seq<T>>, start: MatrixIndex, size: MatrixSize) -> Result<
    Seq<Seq<T>>,
    MatrixError,
> {
    if start.row + size.row > grid.len() || start.col + size.col > grid[0].len() {
        Err(MatrixError::IndexOutOfBound)
    } else if size.row == 0 && size.col == 0 {
        Err(MatrixError::ZeroSizeMatrix)
    } else {
        Ok(sub_grid(grid, start.row as int, start.col as int, size.row as nat, size.col as nat))
    }
}

/// The grid of swapped shape, as many rows as `grid` has columns and as many
/// columns as `grid` has rows, that holds at `(r, c)` what `grid` holds at
/// `(r, c)`, and `zero` where `grid` has no entry at `(r, c)`.
pub open spec fn shape_swapped<T>(grid: Seq<Seq<T>>, zero: T) -> Seq<Seq<T>> {
    Seq::new(
        grid[0].len(),
        |r: int|
            Seq::new(
                grid.len(),
                |c: int|
                    if r < grid.len() && c < grid[0].len() {
                        grid[r][c]
                    } else {
                        zero
                    },
            ),
    )
}

/// Column `c` of `grid`, read from top to bottom.
pub open spec fn column<T>(grid: Seq<Seq<T>>, c: int) -> Seq<T> {
    Seq::new(grid.len(), |k: int| grid[k][c])
}

/// One step of a dot product: `product` is what `times` may give for `(x, y)`,
/// and `acc` is what `plus` may give for `(before, product)`.
pub open spec fn accumulates<T, M: Fn(T, T) -> T, A: Fn(T, T) -> T>(
    times: M,
    plus: A,
    x: T,
    y: T,
    before: T,
    product: T,
    acc: T,
) -> bool {
    call_ensures(times, (x, y), product) && call_ensures(plus, (before, product), acc)
}

/// `acc` is a dot product of the first `len` entries of `left` and `right`:
/// starting from `zero`, the products are added one by one, left to right.
pub open spec fn dot_reaches<T, M: Fn(T, T) -> T, A: Fn(T, T) -> T>(
    times: M,
    plus: A,
    zero: T,
    left: Seq<T>,
    right: Seq<T>,
    len: nat,
    acc: T,
) -> bool
    decreases len,
{
    if len == 0 {
        acc == zero
    } else {
        exists|before: T, product: T|
            dot_reaches(times, plus, zero, left, right, (len - 1) as nat, before)
                && #[trigger] accumulates(
                times,
                plus,
                left[len - 1],
                right[len - 1],
                before,
                product,
                acc,
            )
    }
}

/// A dense matrix stored as a sequence of rows.
pub struct Matrix<T> {
    element_array: Vec<Vec<T>>,
}

impl<T: Copy> View for Matrix<T> {
    type V = Seq<Seq<T>>;

    closed spec fn view(&self) -> Seq<Seq<T>> {
        grid_of(self.element_array@)
    }
}

impl<T: Copy> Clone for Matrix<T> {
    /// A matrix with the same grid.
    fn clone(&self) -> (copy: Self)
        ensures
            copy@ == self@,
    {
        Self { element_array: Self::copy_rows(&self.element_array) }
    }
}

impl<T: Copy> Matrix<T> {
    /// Number of rows of the grid.
    pub open spec fn rows(&self) -> nat {
        self@.len()
    }

    /// Length of the first row; zero for a grid without rows.
    pub open spec fn cols(&self) -> nat {
        if self@.len() > 0 {
            self@[0].len()
        } else {
            0
        }
    }

    /// The grid has at least one row and all rows are equally long.
    pub open spec fn well_formed(&self) -> bool {
        self@.len() >= 1 && rectangular(self@)
    }

    /// A row of `len` copies of `fill`.
    fn filled_row(len: usize, fill: T) -> (row: Vec<T>)
        ensures
            row@ == Seq::new(len as nat, |c: int| fill),
    {
        let mut row: Vec<T> = Vec::new();
        let mut c: usize = 0;
        while c < len
            invariant
                c <= len,
                row@ == Seq::new(c as nat, |k: int| fill),
            decreases len - c,
        {
            row.push(fill);
            c += 1;
            assert(row@ =~= Seq::new(c as nat, |k: int| fill));
        }
        row
    }

    /// Builds the grid of shape `size` that holds `zero` everywhere. Only the
    /// shape with both dimensions zero is refused.
    pub fn new(size: MatrixSize, zero: T) -> (made: Result<Self, MatrixError>)
        ensures
            size.row == 0 && size.col == 0 <==> made.is_err(),
            made.is_err() ==> made == Err::<Self, MatrixError>(MatrixError::ZeroSizeMatrix),
            made.is_ok() ==> made.unwrap()@ == filled_grid(size.row as nat, size.col as nat, zero),
            made.is_ok() ==> made.unwrap().rows() == size.row,
            made.is_ok() && size.row >= 1 ==> made.unwrap().well_formed() && made.unwrap().cols()
                == size.col,
    {
        if size.row == 0 && size.col == 0 {
            return Err(MatrixError::ZeroSizeMatrix);
        }
        let mut element_array: Vec<Vec<T>> = Vec::new();
        let mut r: usize = 0;
        while r < size.row
            invariant
                r <= size.row,
                element_array@.len() == r,
                forall|i: int|
                    0 <= i < r ==> (#[trigger] element_array@[i])@ == Seq::new(
                        size.col as nat,
                        |c: int| zero,
                    ),
            decreases size.row - r,
        {
            let row = Self::filled_row(size.col, zero);
            element_array.push(row);
            r += 1;
        }
        assert(grid_of(element_array@) =~= filled_grid(size.row as nat, size.col as nat, zero));
        Ok(Self { element_array })
    }

    /// The shape, read from the number of rows and the first row's length.
    pub fn get_size(&self) -> (size: MatrixSize)
        requires
            self.rows() >= 1,
        ensures
            size.row == self.rows(),
            size.col == self.cols(),
    {
        MatrixSize::new(self.element_array.len(), self.element_array[0].len())
    }

    /// The matrix product. Each entry is the dot product of a row of `self`
    /// and a column of `other`, accumulated from `zero` over the shared
    /// dimension, left to right, with the caller's `times` and `plus`.
    pub fn matrix_mul<M: Fn(T, T) -> T, A: Fn(T, T) -> T>(
        &self,
        other: &Matrix<T>,
        zero: T,
        times: M,
        plus: A,
    ) -> (product: Result<Self, MatrixError>)
        requires
            self.well_formed(),
            other.well_formed(),
            forall|r: int, k: int, c: int|
                0 <= r < self.rows() && 0 <= k < self.cols() && k < other.rows() && 0 <= c
                    < other.cols() ==> call_requires(
                    times,
                    (#[trigger] self@[r][k], #[trigger] other@[k][c]),
                ),
            forall|x: T, y: T| call_requires(plus, (x, y)),
        ensures
            self.cols() != other.rows() <==> product.is_err(),
            product.is_err() ==> product == Err::<Self, MatrixError>(
                MatrixError::IncompatibleSizeMultiplication,
            ),
            product.is_ok() ==> {
                let p = product.unwrap();
                &&& p.well_formed()
                &&& p.rows() == self.rows()
                &&& p.cols() == other.cols()
                &&& forall|r: int, c: int|
                    0 <= r < self.rows() && 0 <= c < other.cols() ==> dot_reaches(
                        times,
                        plus,
                        zero,
                        self@[r],
                        column(other@, c),
                        self.cols(),
                        #[trigger] p@[r][c],
                    )
            },
    {
        let self_size = self.get_size();
        let other_size = other.get_size();
        if self_size.col != other_size.row {
            return Err(MatrixError::IncompatibleSizeMultiplication);
        }
        let common_size = self_size.col;
        let mut element_array: Vec<Vec<T>> = Vec::new();
        let mut r: usize = 0;
        while r < self_size.row
            invariant
                self.well_formed(),
                other.well_formed(),
                self_size.row == self.rows(),
                self_size.col == self.cols(),
                other_size.row == other.rows(),
                other_size.col == other.cols(),
                common_size == self.cols(),
                common_size == other.rows(),
                forall|i: int, k: int, c: int|
                    0 <= i < self.rows() && 0 <= k < self.cols() && k < other.rows() && 0 <= c
                        < other.cols() ==> call_requires(
                        times,
                        (#[trigger] self@[i][k], #[trigger] other@[k][c]),
                    ),
                forall|x: T, y: T| call_requires(plus, (x, y)),
                r <= self_size.row,
                element_array@.len() == r,
                forall|i: int| 0 <= i < r ==> (#[trigger] element_array@[i])@.len() == other_size.col,
                forall|i: int, c: int|
                    0 <= i < r && 0 <= c < other_size.col ==> dot_reaches(
                        times,
                        plus,
                        zero,
                        self@[i],
                        column(other@, c),
                        common_size as nat,
                        #[trigger] element_array@[i]@[c],
                    ),
            decreases self_size.row - r,
        {
            let mut row: Vec<T> = Vec::new();
            let mut c: usize = 0;
            while c < other_size.col
                invariant
                    self.well_formed(),
                    other.well_formed(),
                    self_size.row == self.rows(),
                    self_size.col == self.cols(),
                    other_size.row == other.rows(),
                    other_size.col == other.cols(),
                    common_size == self.cols(),
                    common_size == other.rows(),
                    forall|i: int, k: int, j: int|
                        0 <= i < self.rows() && 0 <= k < self.cols() && k < other.rows() && 0 <= j
                            < other.cols() ==> call_requires(
                            times,
                            (#[trigger] self@[i][k], #[trigger] other@[k][j]),
                        ),
                    forall|x: T, y: T| call_requires(plus, (x, y)),
                    r < self_size.row,
                    c <= other_size.col,
                    row@.len() == c,
                    forall|j: int|
                        0 <= j < c ==> dot_reaches(
                            times,
                            plus,
                            zero,
                            self@[r as int],
                            column(other@, j),
                            common_size as nat,
                            #[trigger] row@[j],
                        ),
                decreases other_size.col - c,
            {
                let mut acc: T = zero;
                let mut k: usize = 0;
                while k < common_size
                    invariant
                        self.well_formed(),
                        other.well_formed(),
                        self_size.row == self.rows(),
                        self_size.col == self.cols(),
                        other_size.row == other.rows(),
                        other_size.col == other.cols(),
                        common_size == self.cols(),
                        common_size == other.rows(),
                        forall|i: int, m: int, j: int|
                            0 <= i < self.rows() && 0 <= m < self.cols() && m < other.rows() && 0
                                <= j < other.cols() ==> call_requires(
                                times,
                                (#[trigger] self@[i][m], #[trigger] other@[m][j]),
                            ),
                        forall|x: T, y: T| call_requires(plus, (x, y)),
                        r < self_size.row,
                        c < other_size.col,
                        k <= common_size,
                        dot_reaches(
                            times,
                            plus,
                            zero,
                            self@[r as int],
                            column(other@, c as int),
                            k as nat,
                            acc,
                        ),
                    decreases common_size - k,
                {
                    assert(self@[r as int].len() == self.cols());
                    assert(other@[k as int].len() == other.cols());
                    let x = self.element_array[r][k];
                    let y = other.element_array[k][c];
                    assert(x == self@[r as int][k as int]);
                    assert(y == other@[k as int][c as int]);
                    let product = times(x, y);
                    let next = plus(acc, product);
                    proof {
                        let left = self@[r as int];
                        let right = column(other@, c as int);
                        assert(right[k as int] == y);
                        assert(accumulates(
                            times,
                            plus,
                            left[k + 1 - 1],
                            right[k + 1 - 1],
                            acc,
                            product,
                            next,
                        ));
                        assert(dot_reaches(times, plus, zero, left, right, (k + 1) as nat, next));
                    }
                    acc = next;
                    k += 1;
                }
                row.push(acc);
                c += 1;
            }
            element_array.push(row);
            r += 1;
        }
        let result = Self { element_array };
        assert(result.well_formed());
        Ok(result)
    }

    /// A copy of `rows`, row by row.
    fn copy_rows(rows: &Vec<Vec<T>>) -> (copy: Vec<Vec<T>>)
        ensures
            grid_of(copy@) == grid_of(rows@),
    {
        let mut copy: Vec<Vec<T>> = Vec::new();
        let mut r: usize = 0;
        while r < rows.len()
            invariant
                r <= rows@.len(),
                copy@.len() == r,
                forall|i: int| 0 <= i < r ==> (#[trigger] copy@[i])@ == rows@[i]@,
            decreases rows@.len() - r,
        {
            let source = &rows[r];
            let mut row: Vec<T> = Vec::new();
            let mut c: usize = 0;
            while c < source.len()
                invariant
                    c <= source@.len(),
                    row@ == source@.take(c as int),
                decreases source@.len() - c,
            {
                row.push(source[c]);
                c += 1;
                assert(row@ =~= source@.take(c as int));
            }
            assert(row@ =~= source@);
            copy.push(row);
            r += 1;
        }
        assert(grid_of(copy@) =~= grid_of(rows@));
        copy
    }

    /// Takes over caller-supplied rows. Rows that are absent, or a first row
    /// that is empty, are refused as a zero-size matrix; rows of differing
    /// length as non-rectangular.
    pub fn from_vec(element_array: Vec<Vec<T>>) -> (made: Result<Self, MatrixError>)
        ensures
            match made {
                Ok(matrix) => from_vec_outcome(grid_of(element_array@)) == Ok::<
                    Seq<Seq<T>>,
                    MatrixError,
                >(matrix@),
                Err(error) => from_vec_outcome(grid_of(element_array@)) == Err::<
                    Seq<Seq<T>>,
                    MatrixError,
                >(error),
            },
            made.is_ok() ==> made.unwrap().well_formed() && made.unwrap().cols() >= 1,
    {
        if element_array.len() == 0 || element_array[0].len() == 0 {
            return Err(MatrixError::ZeroSizeMatrix);
        }
        let row_size = element_array[0].len();
        let ghost grid = grid_of(element_array@);
        let mut r: usize = 0;
        while r < element_array.len()
            invariant
                grid == grid_of(element_array@),
                element_array@.len() >= 1,
                row_size == grid[0].len(),
                row_size >= 1,
                r <= element_array@.len(),
                forall|i: int| 0 <= i < r ==> (#[trigger] grid[i]).len() == row_size,
            decreases element_array@.len() - r,
        {
            if element_array[r].len() != row_size {
                assert(grid[r as int].len() != grid[0].len());
                return Err(MatrixError::NonRectangularElementVector);
            }
            r += 1;
        }
        Ok(Self { element_array })
    }

    /// The whole grid as an owned copy.
    pub fn as_vec(&self) -> (rows: Vec<Vec<T>>)
        ensures
            grid_of(rows@) == self@,
    {
        Self::copy_rows(&self.element_array)
    }

    /// Replaces the whole grid by a copy of `element_array`, as given: the
    /// matrix is well formed afterwards exactly if the rows given are.
    pub fn set_vec(&mut self, element_array: &Vec<Vec<T>>)
        ensures
            final(self)@ == grid_of(element_array@),
    {
        self.element_array = Self::copy_rows(element_array);
    }

    /// Reads one element. The index is valid only if it lies strictly below
    /// the shape in both dimensions.
    pub fn get_element(&self, index: MatrixIndex) -> (read: Result<T, MatrixError>)
        requires
            self.well_formed(),
        ensures
            read.is_ok() <==> index.row < self.rows() && index.col < self.cols(),
            read.is_ok() ==> read.unwrap() == self@[index.row as int][index.col as int],
            read.is_err() ==> read == Err::<T, MatrixError>(MatrixError::IndexOutOfBound),
    {
        if index.strictly_less_than(&self.get_size()) {
            assert(self@[index.row as int].len() == self.cols());
            return Ok(self.element_array[index.row][index.col]);
        }
        Err(MatrixError::IndexOutOfBound)
    }

    /// Overwrites one element in place, under the same bounds test as
    /// `get_element`. A refused write leaves the matrix as it was.
    pub fn set_element(&mut self, index: MatrixIndex, element: T) -> (written: Result<
        (),
        MatrixError,
    >)
        requires
            old(self).well_formed(),
        ensures
            final(self).well_formed(),
            written.is_ok() <==> index.row < old(self).rows() && index.col < old(self).cols(),
            written.is_ok() ==> final(self)@ == old(self)@.update(
                index.row as int,
                old(self)@[index.row as int].update(index.col as int, element),
            ),
            written.is_err() ==> written == Err::<(), MatrixError>(MatrixError::IndexOutOfBound)
                && final(self)@ == old(self)@,
    {
        if index.strictly_less_than(&self.get_size()) {
            assert(self@[index.row as int].len() == self.cols());
            self.element_array[index.row][index.col] = element;
            assert(self@ =~= old(self)@.update(
                index.row as int,
                old(self)@[index.row as int].update(index.col as int, element),
            ));
            assert(self.well_formed()) by {
                assert forall|r: int| 0 <= r < self@.len() implies (#[trigger] self@[r]).len()
                    == self@[0].len() by {
                    assert(old(self)@[r].len() == old(self)@[0].len());
                }
            }
            return Ok(());
        }
        Err(MatrixError::IndexOutOfBound)
    }

    /// The `n` by `n` matrix with `one` on the main diagonal and `zero`
    /// elsewhere. Only `size == 0` is refused.
    pub fn identity_matrix(size: usize, zero: T, one: T) -> (made: Result<Self, MatrixError>)
        ensures
            size == 0 <==> made.is_err(),
            made.is_err() ==> made == Err::<Self, MatrixError>(MatrixError::ZeroSizeMatrix),
            made.is_ok() ==> made.unwrap()@ == identity_grid(size as nat, zero, one)
                && made.unwrap().well_formed(),
    {
        if size == 0 {
            return Err(MatrixError::ZeroSizeMatrix);
        }
        let mut element_array: Vec<Vec<T>> = Vec::new();
        let mut r: usize = 0;
        while r < size
            invariant
                r <= size,
                element_array@.len() == r,
                forall|i: int|
                    0 <= i < r ==> (#[trigger] element_array@[i])@ == identity_grid(
                        size as nat,
                        zero,
                        one,
                    )[i],
            decreases size - r,
        {
            let mut row: Vec<T> = Vec::new();
            let mut c: usize = 0;
            while c < size
                invariant
                    r < size,
                    c <= size,
                    row@.len() == c,
                    forall|j: int|
                        0 <= j < c ==> #[trigger] row@[j] == (if r as int == j {
                            one
                        } else {
                            zero
                        }),
                decreases size - c,
            {
                row.push(if r == c { one } else { zero });
                c += 1;
            }
            assert(row@ =~= identity_grid(size as nat, zero, one)[r as int]);
            element_array.push(row);
            r += 1;
        }
        let made = Self { element_array };
        assert(made@ =~= identity_grid(size as nat, zero, one));
        Ok(made)
    }

    /// Row `index_row` as a matrix of one row.
    pub fn get_row(&self, index_row: usize) -> (row: Result<Self, MatrixError>)
        requires
            self.well_formed(),
        ensures
            index_row >= self.rows() <==> row.is_err(),
            row.is_err() ==> row == Err::<Self, MatrixError>(MatrixError::IndexOutOfBound),
            row.is_ok() ==> row.unwrap()@ == seq![self@[index_row as int]]
                && row.unwrap().well_formed(),
    {
        let size = self.get_size();
        if size.row <= index_row {
            return Err(MatrixError::IndexOutOfBound);
        }
        assert(self@[index_row as int].len() == self.cols());
        let mut copy: Vec<T> = Vec::new();
        let mut c: usize = 0;
        while c < size.col
            invariant
                index_row < self.element_array@.len(),
                size.col == self.element_array@[index_row as int]@.len(),
                c <= size.col,
                copy@ == self.element_array@[index_row as int]@.take(c as int),
            decreases size.col - c,
        {
            copy.push(self.element_array[index_row][c]);
            c += 1;
            assert(copy@ =~= self.element_array@[index_row as int]@.take(c as int));
        }
        assert(copy@ =~= self@[index_row as int]);
        let mut element_array: Vec<Vec<T>> = Vec::new();
        element_array.push(copy);
        let row = Self { element_array };
        assert(row@ =~= seq![self@[index_row as int]]);
        Ok(row)
    }

    /// Column `index_col` as a matrix of one column.
    pub fn get_col(&self, index_col: usize) -> (col: Result<Self, MatrixError>)
        requires
            self.well_formed(),
        ensures
            index_col >= self.cols() <==> col.is_err(),
            col.is_err() ==> col == Err::<Self, MatrixError>(MatrixError::IndexOutOfBound),
            col.is_ok() ==> col.unwrap()@ == Seq::new(
                self.rows(),
                |r: int| seq![self@[r][index_col as int]],
            ) && col.unwrap().well_formed(),
    {
        let size = self.get_size();
        if size.col <= index_col {
            return Err(MatrixError::IndexOutOfBound);
        }
        let mut element_array: Vec<Vec<T>> = Vec::new();
        let mut r: usize = 0;
        while r < size.row
            invariant
                self.well_formed(),
                size.row == self.rows(),
                size.col == self.cols(),
                index_col < size.col,
                r <= size.row,
                element_array@.len() == r,
                forall|i: int|
                    0 <= i < r ==> (#[trigger] element_array@[i])@ == seq![
                        self@[i][index_col as int],
                    ],
            decreases size.row - r,
        {
            assert(self@[r as int].len() == self.cols());
            let mut single: Vec<T> = Vec::new();
            single.push(self.element_array[r][index_col]);
            assert(single@ =~= seq![self@[r as int][index_col as int]]);
            element_array.push(single);
            r += 1;
        }
        let col = Self { element_array };
        assert(col@ =~= Seq::new(self.rows(), |r: int| seq![self@[r][index_col as int]]));
        Ok(col)
    }

    /// The block of shape `size` whose first element is the one at
    /// `start_index`. A block that reaches past the source in either
    /// dimension is refused as out of bound; after that, a block with both
    /// dimensions zero as a zero-size matrix.
    pub fn swizzle(&self, start_index: MatrixIndex, size: MatrixSize) -> (block: Result<
        Self,
        MatrixError,
    >)
        requires
            self.well_formed(),
        ensures
            match block {
                Ok(matrix) => swizzle_outcome(self@, start_index, size) == Ok::<
                    Seq<Seq<T>>,
                    MatrixError,
                >(matrix@),
                Err(error) => swizzle_outcome(self@, start_index, size) == Err::<
                    Seq<Seq<T>>,
                    MatrixError,
                >(error),
            },
            block.is_ok() && size.row >= 1 ==> block.unwrap().well_formed(),
    {
        let self_size = self.get_size();
        if start_index.row > self_size.row || size.row > self_size.row - start_index.row
            || start_index.col > self_size.col || size.col > self_size.col - start_index.col {
            return Err(MatrixError::IndexOutOfBound);
        }
        if size.row == 0 && size.col == 0 {
            return Err(MatrixError::ZeroSizeMatrix);
        }
        let ghost wanted = sub_grid(
            self@,
            start_index.row as int,
            start_index.col as int,
            size.row as nat,
            size.col as nat,
        );
        let mut element_array: Vec<Vec<T>> = Vec::new();
        let mut r: usize = 0;
        while r < size.row
            invariant
                self.well_formed(),
                self_size.row == self.rows(),
                self_size.col == self.cols(),
                start_index.row + size.row <= self_size.row,
                start_index.col + size.col <= self_size.col,
                wanted == sub_grid(
                    self@,
                    start_index.row as int,
                    start_index.col as int,
                    size.row as nat,
                    size.col as nat,
                ),
                r <= size.row,
                element_array@.len() == r,
                forall|i: int| 0 <= i < r ==> (#[trigger] element_array@[i])@ == wanted[i],
            decreases size.row - r,
        {
            assert(self@[start_index.row + r].len() == self.cols());
            let mut row: Vec<T> = Vec::new();
            let mut c: usize = 0;
            while c < size.col
                invariant
                    r < size.row,
                    start_index.row + size.row <= self_size.row,
                    start_index.col + size.col <= self_size.col,
                    start_index.row + size.row <= self.element_array@.len(),
                    start_index.col + size.col <= self.element_array@[start_index.row + r]@.len(),
                    c <= size.col,
                    row@.len() == c,
                    forall|j: int|
                        0 <= j < c ==> #[trigger] row@[j] == self.element_array@[start_index.row
                            + r]@[start_index.col + j],
                decreases size.col - c,
            {
                row.push(self.element_array[start_index.row + r][start_index.col + c]);
                c += 1;
            }
            assert(row@ =~= wanted[r as int]);
            element_array.push(row);
            r += 1;
        }
        let block = Self { element_array };
        assert(block@ =~= wanted);
        Ok(block)
    }

    /// The matrix of swapped shape. It starts out filled with `zero`, and the
    /// swapped shape is walked with the source's own indices: the element at
    /// `(r, c)` is the source's element at `(r, c)` wherever the source has
    /// one, and stays `zero` elsewhere. A square source is copied whole.
    pub fn transpose(&self, zero: T) -> (turned: Self)
        requires
            self.well_formed(),
        ensures
            turned@ == shape_swapped(self@, zero),
            turned.rows() == self.cols(),
            forall|r: int| 0 <= r < self.cols() ==> (#[trigger] turned@[r]).len() == self.rows(),
            self.cols() >= 1 ==> turned.well_formed() && turned.cols() == self.rows(),
            forall|r: int, c: int|
                0 <= r < self.rows() && r < self.cols() && 0 <= c < self.cols() && c < self.rows()
                    ==> #[trigger] turned@[r][c] == self@[r][c],
            forall|r: int, c: int|
                0 <= r < self.cols() && 0 <= c < self.rows() && !(r < self.rows() && c
                    < self.cols()) ==> #[trigger] turned@[r][c] == zero,
    {
        let self_size = self.get_size();
        let mut element_array: Vec<Vec<T>> = Vec::new();
        let mut r: usize = 0;
        while r < self_size.col
            invariant
                self.well_formed(),
                self_size.row == self.rows(),
                self_size.col == self.cols(),
                r <= self_size.col,
                element_array@.len() == r,
                forall|i: int|
                    0 <= i < r ==> (#[trigger] element_array@[i])@ == shape_swapped(self@, zero)[i],
            decreases self_size.col - r,
        {
            let mut row: Vec<T> = Vec::new();
            let mut c: usize = 0;
            while c < self_size.row
                invariant
                    self.well_formed(),
                    self_size.row == self.rows(),
                    self_size.col == self.cols(),
                    r < self_size.col,
                    c <= self_size.row,
                    row@.len() == c,
                    forall|j: int|
                        0 <= j < c ==> #[trigger] row@[j] == shape_swapped(self@, zero)[r as int][j],
                decreases self_size.row - c,
            {
                let element = if r < self_size.row && c < self_size.col {
                    assert(self@[r as int].len() == self.cols());
                    self.element_array[r][c]
                } else {
                    zero
                };
                row.push(element);
                c += 1;
            }
            assert(row@ =~= shape_swapped(self@, zero)[r as int]);
            element_array.push(row);
            r += 1;
        }
        let turned = Self { element_array };
        assert(turned@ =~= shape_swapped(self@, zero));
        turned
    }

    /// Whether the grid has at least one row and rows of one length, which is
    /// what the operations on a matrix ask of it.
    pub fn is_well_formed(&self) -> (ok: bool)
        ensures
            ok == self.well_formed(),
    {
        if self.element_array.len() == 0 {
            return false;
        }
        let width = self.element_array[0].len();
        let mut r: usize = 0;
        while r < self.element_array.len()
            invariant
                self@.len() == self.element_array@.len(),
                self@.len() >= 1,
                width == self@[0].len(),
                r <= self.element_array@.len(),
                forall|i: int| 0 <= i < r ==> (#[trigger] self@[i]).len() == width,
            decreases self.element_array@.len() - r,
        {
            if self.element_array[r].len() != width {
                assert(self@[r as int].len() != self@[0].len());
                return false;
            }
            r += 1;
        }
        true
    }

    /// Approximate equality: the shapes are the same and `close` accepts
    /// every pair of corresponding elements.
    pub fn eq<C: Fn(T, T) -> bool>(&self, other: &Self, close: C) -> (same: bool)
        requires
            self.well_formed(),
            other.well_formed(),
            forall|r: int, c: int|
                0 <= r < self.rows() && r < other.rows() && 0 <= c < self.cols() && c
                    < other.cols() ==> call_requires(
                    close,
                    (#[trigger] self@[r][c], #[trigger] other@[r][c]),
                ),
        ensures
            same ==> self.rows() == other.rows() && self.cols() == other.cols() && forall|
                r: int,
                c: int,
            |
                0 <= r < self.rows() && 0 <= c < self.cols() ==> call_ensures(
                    close,
                    (#[trigger] self@[r][c], #[trigger] other@[r][c]),
                    true,
                ),
            !same ==> self.rows() != other.rows() || self.cols() != other.cols() || exists|
                r: int,
                c: int,
            |
                0 <= r < self.rows() && 0 <= c < self.cols() && call_ensures(
                    close,
                    (#[trigger] self@[r][c], #[trigger] other@[r][c]),
                    false,
                ),
    {
        let self_size = self.get_size();
        let other_size = other.get_size();
        if self_size.row != other_size.row || self_size.col != other_size.col {
            return false;
        }
        let mut r: usize = 0;
        while r < self_size.row
            invariant
                self.well_formed(),
                other.well_formed(),
                self_size.row == self.rows(),
                self_size.col == self.cols(),
                self.rows() == other.rows(),
                self.cols() == other.cols(),
                forall|i: int, j: int|
                    0 <= i < self.rows() && i < other.rows() && 0 <= j < self.cols() && j
                        < other.cols() ==> call_requires(
                        close,
                        (#[trigger] self@[i][j], #[trigger] other@[i][j]),
                    ),
                r <= self_size.row,
                forall|i: int, j: int|
                    0 <= i < r && 0 <= j < self.cols() ==> call_ensures(
                        close,
                        (#[trigger] self@[i][j], #[trigger] other@[i][j]),
                        true,
                    ),
            decreases self_size.row - r,
        {
            assert(self@[r as int].len() == self.cols());
            assert(other@[r as int].len() == other.cols());
            let mut c: usize = 0;
            while c < self_size.col
                invariant
                    self.well_formed(),
                    other.well_formed(),
                    self_size.row == self.rows(),
                    self_size.col == self.cols(),
                    self.rows() == other.rows(),
                    self.cols() == other.cols(),
                    self@[r as int].len() == self.cols(),
                    other@[r as int].len() == other.cols(),
                    forall|i: int, j: int|
                        0 <= i < self.rows() && i < other.rows() && 0 <= j < self.cols() && j
                            < other.cols() ==> call_requires(
                            close,
                            (#[trigger] self@[i][j], #[trigger] other@[i][j]),
                        ),
                    r < self_size.row,
                    c <= self_size.col,
                    forall|j: int|
                        0 <= j < c ==> call_ensures(
                            close,
                            (#[trigger] self@[r as int][j], #[trigger] other@[r as int][j]),
                            true,
                        ),
                decreases self_size.col - c,
            {
                let x = self.element_array[r][c];
                let y = other.element_array[r][c];
                assert(x == self@[r as int][c as int]);
                assert(y == other@[r as int][c as int]);
                if !close(x, y) {
                    return false;
                }
                c += 1;
            }
            r += 1;
        }
        true
    }

    /// Wraps rows that the caller has already laid out, as they are.
    pub(crate) fn from_rows(element_array: Vec<Vec<T>>) -> (made: Self)
        ensures
            made@ == grid_of(element_array@),
    {
        Self { element_array }
    }
}

} // verus!
