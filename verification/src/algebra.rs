//! Facts that tie the constructors and operations of the matrix together.
use crate::matrix::{
    accumulates, column, dot_reaches, filled_grid, from_vec_outcome, identity_grid, rectangular,
    shape_swapped, MatrixError,
};
use vstd::prelude::*;

verus! {

/// A grid made by filling a shape is rectangular: each of its rows has as
/// many entries as the shape has columns.
pub proof fn filled_grid_is_rectangular<T>(rows: nat, cols: nat, fill: T)
    ensures
        filled_grid(rows, cols, fill).len() == rows,
        forall|r: int| 0 <= r < rows ==> (#[trigger] filled_grid(rows, cols, fill)[r]).len() == cols,
        rectangular(filled_grid(rows, cols, fill)),
{
}

/// An identity grid is square: it has `n` rows of `n` entries each.
pub proof fn identity_grid_is_square<T>(n: nat, zero: T, one: T)
    ensures
        identity_grid(n, zero, one).len() == n,
        forall|r: int| 0 <= r < n ==> (#[trigger] identity_grid(n, zero, one)[r]).len() == n,
        rectangular(identity_grid(n, zero, one)),
{
}

/// Rows are accepted only if they form a rectangle with at least one column:
/// whatever grid a matrix is built from, each of its rows is as long as the
/// first, and the first is not empty.
pub proof fn accepted_rows_are_rectangular<T>(grid: Seq<Seq<T>>)
    requires
        from_vec_outcome(grid) is Ok,
    ensures
        grid.len() >= 1,
        grid[0].len() >= 1,
        forall|r: int| 0 <= r < grid.len() ==> (#[trigger] grid[r]).len() == grid[0].len(),
{
}

/// Building a matrix from a rectangle of rows with at least one row and one
/// column succeeds, and the matrix holds exactly those rows: exporting them
/// again gives the rows that went in.
pub proof fn rows_round_trip<T>(grid: Seq<Seq<T>>)
    requires
        grid.len() >= 1,
        grid[0].len() >= 1,
        rectangular(grid),
    ensures
        from_vec_outcome(grid) == Ok::<Seq<Seq<T>>, MatrixError>(grid),
{
}

/// Swapping the shape of a grid twice gives the shape back. The entries that
/// lie in both the grid and its swapped shape come back too; the others have
/// become `zero`. So a square grid, where no others exist, comes back whole,
/// and is already whole after one swap.
pub proof fn shape_swapped_twice<T>(grid: Seq<Seq<T>>, zero: T)
    requires
        grid.len() >= 1,
        grid[0].len() >= 1,
        rectangular(grid),
    ensures
        shape_swapped(shape_swapped(grid, zero), zero).len() == grid.len(),
        forall|r: int|
            0 <= r < grid.len() ==> (#[trigger] shape_swapped(
                shape_swapped(grid, zero),
                zero,
            )[r]).len() == grid[0].len(),
        forall|r: int, c: int|
            0 <= r < grid.len() && 0 <= c < grid[0].len() ==> #[trigger] shape_swapped(
                shape_swapped(grid, zero),
                zero,
            )[r][c] == (if r < grid[0].len() && c < grid.len() {
                grid[r][c]
            } else {
                zero
            }),
        grid[0].len() == grid.len() ==> shape_swapped(grid, zero) == grid && shape_swapped(
            shape_swapped(grid, zero),
            zero,
        ) == grid,
{
    let once = shape_swapped(grid, zero);
    let twice = shape_swapped(once, zero);
    assert(once.len() == grid[0].len());
    assert(once[0].len() == grid.len());
    assert(twice.len() == grid.len());
    assert forall|r: int, c: int| 0 <= r < grid.len() && 0 <= c < grid[0].len() implies #[trigger] twice[r][c]
        == (if r < grid[0].len() && c < grid.len() {
        grid[r][c]
    } else {
        zero
    }) by {
        if r < grid[0].len() && c < grid.len() {
            assert(twice[r][c] == once[r][c]);
            assert(once[r][c] == grid[r][c]);
        }
    }
    if grid[0].len() == grid.len() {
        assert forall|r: int| 0 <= r < grid.len() implies #[trigger] once[r] =~= grid[r] by {
            assert(grid[r].len() == grid[0].len());
        }
        assert(once =~= grid);
    }
}

/// For the value `x`, `zero` and `one` behave under `times` and `plus` as
/// zero and one do: `zero` times `x` is `zero`, `one` times `x` is `x`, and
/// adding `zero` on either side of `x` gives `x`.
pub open spec fn neutral_for<T, M: Fn(T, T) -> T, A: Fn(T, T) -> T>(
    times: M,
    plus: A,
    zero: T,
    one: T,
    x: T,
) -> bool {
    &&& forall|p: T| call_ensures(times, (zero, x), p) ==> p == zero
    &&& forall|p: T| call_ensures(times, (one, x), p) ==> p == x
    &&& forall|s: T| call_ensures(plus, (zero, x), s) ==> s == x
    &&& forall|s: T| call_ensures(plus, (x, zero), s) ==> s == x
    &&& forall|s: T| call_ensures(plus, (zero, zero), s) ==> s == zero
}

/// The dot product of row `r` of an identity grid with a sequence `right`,
/// taken over the first `len` entries, is `zero` as long as the diagonal has
/// not been reached, and `right[r]` from then on.
pub proof fn identity_row_dot<T, M: Fn(T, T) -> T, A: Fn(T, T) -> T>(
    times: M,
    plus: A,
    zero: T,
    one: T,
    right: Seq<T>,
    r: int,
    len: nat,
    acc: T,
)
    requires
        0 <= r < right.len(),
        len <= right.len(),
        forall|k: int| 0 <= k < right.len() ==> neutral_for(times, plus, zero, one, #[trigger] right[k]),
        dot_reaches(
            times,
            plus,
            zero,
            identity_grid(right.len(), zero, one)[r],
            right,
            len,
            acc,
        ),
    ensures
        len <= r ==> acc == zero,
        len > r ==> acc == right[r],
    decreases len,
{
    if len > 0 {
        let left = identity_grid(right.len(), zero, one)[r];
        let (before, product) = choose|before: T, product: T|
            dot_reaches(times, plus, zero, left, right, (len - 1) as nat, before)
                && #[trigger] accumulates(
                times,
                plus,
                left[len - 1],
                right[len - 1],
                before,
                product,
                acc,
            );
        identity_row_dot(times, plus, zero, one, right, r, (len - 1) as nat, before);
        assert(neutral_for(times, plus, zero, one, right[len - 1]));
        assert(neutral_for(times, plus, zero, one, right[r]));
        if len - 1 == r {
            assert(left[len - 1] == one);
        } else {
            assert(left[len - 1] == zero);
        }
    }
}

/// An identity matrix is neutral on the left. Let `grid` be a rectangle of
/// `n` rows on whose entries `zero` and `one` behave as zero and one. If
/// `product` is a product of the identity grid of side `n` with `grid`, then
/// `product` is `grid`.
pub proof fn identity_is_left_neutral<T, M: Fn(T, T) -> T, A: Fn(T, T) -> T>(
    times: M,
    plus: A,
    zero: T,
    one: T,
    grid: Seq<Seq<T>>,
    product: Seq<Seq<T>>,
)
    requires
        grid.len() >= 1,
        rectangular(grid),
        forall|r: int, c: int|
            0 <= r < grid.len() && 0 <= c < grid[0].len() ==> neutral_for(
                times,
                plus,
                zero,
                one,
                #[trigger] grid[r][c],
            ),
        product.len() == grid.len(),
        forall|r: int| 0 <= r < grid.len() ==> (#[trigger] product[r]).len() == grid[0].len(),
        forall|r: int, c: int|
            0 <= r < grid.len() && 0 <= c < grid[0].len() ==> dot_reaches(
                times,
                plus,
                zero,
                identity_grid(grid.len(), zero, one)[r],
                column(grid, c),
                grid.len(),
                #[trigger] product[r][c],
            ),
    ensures
        product == grid,
{
    assert forall|r: int| 0 <= r < grid.len() implies #[trigger] product[r] =~= grid[r] by {
        assert(grid[r].len() == grid[0].len());
        assert forall|c: int| 0 <= c < grid[0].len() implies product[r][c] == grid[r][c] by {
            let right = column(grid, c);
            assert forall|k: int| 0 <= k < right.len() implies neutral_for(
                times,
                plus,
                zero,
                one,
                #[trigger] right[k],
            ) by {
                assert(grid[k].len() == grid[0].len());
                assert(right[k] == grid[k][c]);
            }
            identity_row_dot(times, plus, zero, one, right, r, grid.len(), product[r][c]);
        }
    }
    assert(product =~= grid);
}

/// The dot product of the first `len` entries of `left` and `right` for
/// operators that are functions: from `zero`, each product is added to what
/// came before it, left to right.
pub open spec fn dot_value<T>(
    times_value: spec_fn(T, T) -> T,
    plus_value: spec_fn(T, T) -> T,
    zero: T,
    left: Seq<T>,
    right: Seq<T>,
    len: nat,
) -> T
    decreases len,
{
    if len == 0 {
        zero
    } else {
        plus_value(
            dot_value(times_value, plus_value, zero, left, right, (len - 1) as nat),
            times_value(left[len - 1], right[len - 1]),
        )
    }
}

/// Where `times` and `plus` give for each pair of arguments one value only,
/// there is one dot product only, and it is `dot_value`.
pub proof fn dot_of_functions<T, M: Fn(T, T) -> T, A: Fn(T, T) -> T>(
    times: M,
    plus: A,
    times_value: spec_fn(T, T) -> T,
    plus_value: spec_fn(T, T) -> T,
    zero: T,
    left: Seq<T>,
    right: Seq<T>,
    len: nat,
    acc: T,
)
    requires
        forall|x: T, y: T, p: T| call_ensures(times, (x, y), p) ==> p == times_value(x, y),
        forall|x: T, y: T, s: T| call_ensures(plus, (x, y), s) ==> s == plus_value(x, y),
        dot_reaches(times, plus, zero, left, right, len, acc),
    ensures
        acc == dot_value(times_value, plus_value, zero, left, right, len),
    decreases len,
{
    if len > 0 {
        let (before, product) = choose|before: T, product: T|
            dot_reaches(times, plus, zero, left, right, (len - 1) as nat, before)
                && #[trigger] accumulates(
                times,
                plus,
                left[len - 1],
                right[len - 1],
                before,
                product,
                acc,
            );
        dot_of_functions(
            times,
            plus,
            times_value,
            plus_value,
            zero,
            left,
            right,
            (len - 1) as nat,
            before,
        );
    }
}

} // verus!
