//! Finite sums of integer-valued functions, over a range and over a
//! rectangle.

use vstd::prelude::*;

verus! {

/// `f(0) + ... + f(n - 1)`.
pub open spec fn sum(f: spec_fn(int) -> int, n: int) -> int
    decreases n,
{
    if n <= 0 {
        0
    } else {
        sum(f, n - 1) + f(n - 1)
    }
}

/// The function `g(., y)` of the first coordinate.
pub open spec fn row_of(g: spec_fn(int, int) -> int, y: int) -> spec_fn(int) -> int {
    |x: int| g(x, y)
}

/// The function `g(x, .)` of the second coordinate.
pub open spec fn column_of(g: spec_fn(int, int) -> int, x: int) -> spec_fn(int) -> int {
    |y: int| g(x, y)
}

/// For each `y`, the sum of `g(x, y)` over the first `width` values of `x`.
pub open spec fn row_sums(g: spec_fn(int, int) -> int, width: int) -> spec_fn(int) -> int {
    |y: int| sum(row_of(g, y), width)
}

/// For each `x`, the sum of `g(x, y)` over the first `height` values of `y`.
pub open spec fn column_sums(g: spec_fn(int, int) -> int, height: int) -> spec_fn(int) -> int {
    |x: int| sum(column_of(g, x), height)
}

/// The sum of `g(x, y)` over the rectangle of `width` by `height`, row by
/// row.
pub open spec fn grid_sum(g: spec_fn(int, int) -> int, width: int, height: int) -> int {
    sum(row_sums(g, width), height)
}

/// A sum of smaller terms is smaller.
pub proof fn lemma_sum_le(f: spec_fn(int) -> int, g: spec_fn(int) -> int, n: int)
    requires
        forall|i: int| 0 <= i < n ==> #[trigger] f(i) <= g(i),
    ensures
        sum(f, n) <= sum(g, n),
    decreases n,
{
    if n > 0 {
        lemma_sum_le(f, g, n - 1);
        assert(f(n - 1) <= g(n - 1));
    }
}

/// Sums of equal terms are equal.
pub proof fn lemma_sum_eq(f: spec_fn(int) -> int, g: spec_fn(int) -> int, n: int)
    requires
        forall|i: int| 0 <= i < n ==> #[trigger] f(i) == g(i),
    ensures
        sum(f, n) == sum(g, n),
    decreases n,
{
    if n > 0 {
        lemma_sum_eq(f, g, n - 1);
        assert(f(n - 1) == g(n - 1));
    }
}

/// A sum of terms that are no less than nothing is no less than nothing, and
/// grows with the number of terms.
pub proof fn lemma_sum_grows(f: spec_fn(int) -> int, n: int, m: int)
    requires
        n <= m,
        forall|i: int| 0 <= i < m ==> 0 <= #[trigger] f(i),
    ensures
        0 <= sum(f, n) <= sum(f, m),
    decreases m,
{
    if m > 0 {
        assert(0 <= f(m - 1));
        if n < m {
            lemma_sum_grows(f, n, m - 1);
        } else {
            lemma_sum_grows(f, n - 1, m - 1);
        }
    }
}

/// Where every term is the sum of two, the sum is the sum of the two sums.
pub proof fn lemma_sum_split(
    f: spec_fn(int) -> int,
    a: spec_fn(int) -> int,
    b: spec_fn(int) -> int,
    n: int,
)
    requires
        forall|i: int| 0 <= i < n ==> #[trigger] f(i) == a(i) + b(i),
    ensures
        sum(f, n) == sum(a, n) + sum(b, n),
    decreases n,
{
    if n > 0 {
        lemma_sum_split(f, a, b, n - 1);
        assert(f(n - 1) == a(n - 1) + b(n - 1));
    }
}

/// A sum in which only the term `at` is not nothing is that term.
pub proof fn lemma_sum_single(f: spec_fn(int) -> int, n: int, at: int)
    requires
        forall|i: int| 0 <= i < n && i != at ==> #[trigger] f(i) == 0,
    ensures
        sum(f, n) == if 0 <= at < n {
            f(at)
        } else {
            0
        },
    decreases n,
{
    if n > 0 {
        lemma_sum_single(f, n - 1, at);
        if n - 1 != at {
            assert(f(n - 1) == 0);
        }
    }
}

/// Where a function exceeds another at one place by at least `more` and is
/// no less anywhere, its sum exceeds the other's by at least `more`.
pub proof fn lemma_sum_bump(
    f: spec_fn(int) -> int,
    g: spec_fn(int) -> int,
    n: int,
    at: int,
    more: int,
)
    requires
        0 <= at < n,
        f(at) + more <= g(at),
        forall|i: int| 0 <= i < n && i != at ==> #[trigger] f(i) <= g(i),
    ensures
        sum(f, n) + more <= sum(g, n),
    decreases n,
{
    if n - 1 == at {
        lemma_sum_le(f, g, n - 1);
    } else {
        lemma_sum_bump(f, g, n - 1, at, more);
        assert(f(n - 1) <= g(n - 1));
    }
}

/// A sum over a rectangle can be taken row by row or column by column.
pub proof fn lemma_sum_swap(g: spec_fn(int, int) -> int, width: int, height: int)
    ensures
        sum(row_sums(g, width), height) == sum(column_sums(g, height), width),
    decreases height,
{
    if height <= 0 {
        lemma_sum_zero(column_sums(g, height), width);
    } else {
        lemma_sum_swap(g, width, height - 1);
        lemma_sum_split(
            column_sums(g, height),
            column_sums(g, height - 1),
            row_of(g, height - 1),
            width,
        );
    }
}

/// A sum of nothing but nothing is nothing.
pub proof fn lemma_sum_zero(f: spec_fn(int) -> int, n: int)
    requires
        forall|i: int| 0 <= i < n ==> #[trigger] f(i) == 0,
    ensures
        sum(f, n) == 0,
    decreases n,
{
    if n > 0 {
        lemma_sum_zero(f, n - 1);
        assert(f(n - 1) == 0);
    }
}

/// Whether `k` is neither the first nor the last of `n` places.
pub open spec fn inner(k: int, n: int) -> bool {
    1 <= k < n - 1
}

/// The values of a function one step aside, taken at the inner places of a
/// range, add up to no more than the values over the whole range, where no
/// value is less than nothing.
pub proof fn lemma_sum_window(
    moved: spec_fn(int) -> int,
    whole: spec_fn(int) -> int,
    n: int,
    by: int,
)
    requires
        -1 <= by <= 1,
        forall|k: int| 0 <= k < n ==> 0 <= #[trigger] whole(k),
        forall|k: int| 0 <= k < n && !inner(k, n) ==> #[trigger] moved(k) == 0,
        forall|k: int| inner(k, n) ==> #[trigger] moved(k) <= whole(k + by),
    ensures
        sum(moved, n) <= sum(whole, n),
{
    if n >= 1 {
        lemma_sum_window_prefix(moved, whole, n, by, n - 1);
        assert(moved(n - 1) == 0);
        lemma_sum_grows(whole, n - 1 + by, n);
    }
}

/// The part of `lemma_sum_window` that an induction proves.
proof fn lemma_sum_window_prefix(
    moved: spec_fn(int) -> int,
    whole: spec_fn(int) -> int,
    n: int,
    by: int,
    m: int,
)
    requires
        -1 <= by <= 1,
        0 <= m <= n - 1,
        forall|k: int| 0 <= k < n ==> 0 <= #[trigger] whole(k),
        forall|k: int| 0 <= k < n && !inner(k, n) ==> #[trigger] moved(k) == 0,
        forall|k: int| inner(k, n) ==> #[trigger] moved(k) <= whole(k + by),
    ensures
        sum(moved, m) <= sum(whole, m + by),
    decreases m,
{
    if m > 0 {
        lemma_sum_window_prefix(moved, whole, n, by, m - 1);
        // sum(moved, m) = sum(moved, m - 1) + moved(m - 1)
        if inner(m - 1, n) {
            assert(moved(m - 1) <= whole(m - 1 + by));
            assert(0 <= whole(m - 1 + by));
        } else {
            assert(moved(m - 1) == 0);
            if m - 1 + by >= 0 {
                assert(0 <= whole(m - 1 + by));
            }
        }
        if m + by >= 1 {
            assert(sum(whole, m + by) == sum(whole, m + by - 1) + whole(m + by - 1));
        } else {
            assert(sum(whole, m + by) == 0);
            assert(sum(whole, m + by - 1) == 0);
        }
    } else {
        if by == 1 {
            assert(sum(whole, 1) == sum(whole, 0) + whole(0));
            assert(0 <= whole(0));
        }
    }
}

/// Whether `(x, y)` lies in the rectangle of `width` by `height`.
pub open spec fn within(x: int, y: int, width: int, height: int) -> bool {
    0 <= x < width && 0 <= y < height
}

/// A sum of smaller terms over a rectangle is smaller.
pub proof fn lemma_grid_le(
    f: spec_fn(int, int) -> int,
    g: spec_fn(int, int) -> int,
    width: int,
    height: int,
)
    requires
        forall|x: int, y: int| within(x, y, width, height) ==> #[trigger] f(x, y) <= g(x, y),
    ensures
        grid_sum(f, width, height) <= grid_sum(g, width, height),
{
    assert forall|y: int| 0 <= y < height implies #[trigger] row_sums(f, width)(y) <= row_sums(
        g,
        width,
    )(y) by {
        assert forall|x: int| 0 <= x < width implies #[trigger] row_of(f, y)(x) <= row_of(g, y)(
            x,
        ) by {
            assert(within(x, y, width, height));
            assert(f(x, y) <= g(x, y));
        }
        lemma_sum_le(row_of(f, y), row_of(g, y), width);
    }
    lemma_sum_le(row_sums(f, width), row_sums(g, width), height);
}

/// Sums of equal terms over a rectangle are equal.
pub proof fn lemma_grid_eq(
    f: spec_fn(int, int) -> int,
    g: spec_fn(int, int) -> int,
    width: int,
    height: int,
)
    requires
        forall|x: int, y: int| within(x, y, width, height) ==> #[trigger] f(x, y) == g(x, y),
    ensures
        grid_sum(f, width, height) == grid_sum(g, width, height),
{
    lemma_grid_le(f, g, width, height);
    lemma_grid_le(g, f, width, height);
}

/// The sum of `n` terms that are all at most `most` is at most `n` times
/// `most`.
pub proof fn lemma_sum_at_most(f: spec_fn(int) -> int, n: int, most: int)
    requires
        0 <= n,
        forall|i: int| 0 <= i < n ==> #[trigger] f(i) <= most,
    ensures
        sum(f, n) <= n * most,
    decreases n,
{
    if n > 0 {
        lemma_sum_at_most(f, n - 1, most);
        assert(f(n - 1) <= most);
        assert((n - 1) * most + most == n * most) by (nonlinear_arith);
    } else {
        assert(0 * most == 0) by (nonlinear_arith);
    }
}

/// Where every term is the sum of two, the sum over a rectangle is the sum of
/// the two sums.
pub proof fn lemma_grid_split(
    f: spec_fn(int, int) -> int,
    a: spec_fn(int, int) -> int,
    b: spec_fn(int, int) -> int,
    width: int,
    height: int,
)
    requires
        forall|x: int, y: int|
            within(x, y, width, height) ==> #[trigger] f(x, y) == a(x, y) + b(x, y),
    ensures
        grid_sum(f, width, height) == grid_sum(a, width, height) + grid_sum(b, width, height),
{
    assert forall|y: int| 0 <= y < height implies #[trigger] row_sums(f, width)(y) == row_sums(
        a,
        width,
    )(y) + row_sums(b, width)(y) by {
        assert forall|x: int| 0 <= x < width implies #[trigger] row_of(f, y)(x) == row_of(a, y)(
            x,
        ) + row_of(b, y)(x) by {
            assert(within(x, y, width, height));
            assert(f(x, y) == a(x, y) + b(x, y));
        }
        lemma_sum_split(row_of(f, y), row_of(a, y), row_of(b, y), width);
    }
    lemma_sum_split(row_sums(f, width), row_sums(a, width), row_sums(b, width), height);
}

/// The values of a function one step aside, taken at the inner places of a
/// rectangle, add up to no more than the values over the whole rectangle,
/// where no value is less than nothing. The step goes along one of the two
/// axes.
pub proof fn lemma_grid_window(
    moved: spec_fn(int, int) -> int,
    whole: spec_fn(int, int) -> int,
    width: int,
    height: int,
    dx: int,
    dy: int,
)
    requires
        -1 <= dx <= 1,
        -1 <= dy <= 1,
        dx == 0 || dy == 0,
        forall|x: int, y: int| within(x, y, width, height) ==> 0 <= #[trigger] whole(x, y),
        forall|x: int, y: int|
            within(x, y, width, height) && !(inner(x, width) && inner(y, height))
                ==> #[trigger] moved(x, y) == 0,
        forall|x: int, y: int|
            inner(x, width) && inner(y, height) ==> #[trigger] moved(x, y) <= whole(
                x + dx,
                y + dy,
            ),
    ensures
        grid_sum(moved, width, height) <= grid_sum(whole, width, height),
{
    if dy == 0 {
        assert forall|y: int| 0 <= y < height implies #[trigger] row_sums(moved, width)(y)
            <= row_sums(whole, width)(y) by {
            let m = row_of(moved, y);
            let w = row_of(whole, y);
            assert forall|k: int| 0 <= k < width implies 0 <= #[trigger] w(k) by {
                assert(within(k, y, width, height));
                assert(0 <= whole(k, y));
            }
            assert forall|k: int| 0 <= k < width && !inner(k, width) implies #[trigger] m(k)
                == 0 by {
                assert(within(k, y, width, height));
                assert(moved(k, y) == 0);
            }
            assert forall|k: int| inner(k, width) implies #[trigger] m(k) <= w(k + dx) by {
                assert(within(k, y, width, height));
                assert(within(k + dx, y, width, height));
                if inner(y, height) {
                    assert(moved(k, y) <= whole(k + dx, y + dy));
                } else {
                    assert(moved(k, y) == 0);
                    assert(0 <= whole(k + dx, y));
                }
            }
            lemma_sum_window(m, w, width, dx);
        }
        lemma_sum_le(row_sums(moved, width), row_sums(whole, width), height);
    } else {
        lemma_sum_swap(moved, width, height);
        lemma_sum_swap(whole, width, height);
        assert forall|x: int| 0 <= x < width implies #[trigger] column_sums(moved, height)(x)
            <= column_sums(whole, height)(x) by {
            let m = column_of(moved, x);
            let w = column_of(whole, x);
            assert forall|k: int| 0 <= k < height implies 0 <= #[trigger] w(k) by {
                assert(within(x, k, width, height));
                assert(0 <= whole(x, k));
            }
            assert forall|k: int| 0 <= k < height && !inner(k, height) implies #[trigger] m(k)
                == 0 by {
                assert(within(x, k, width, height));
                assert(moved(x, k) == 0);
            }
            assert forall|k: int| inner(k, height) implies #[trigger] m(k) <= w(k + dy) by {
                assert(within(x, k, width, height));
                assert(within(x, k + dy, width, height));
                if inner(x, width) {
                    assert(moved(x, k) <= whole(x + dx, k + dy));
                } else {
                    assert(moved(x, k) == 0);
                    assert(0 <= whole(x, k + dy));
                }
            }
            lemma_sum_window(m, w, height, dy);
        }
        lemma_sum_le(column_sums(moved, height), column_sums(whole, height), width);
    }
}

/// The values at `(x, y)` of a family of functions on the rectangle.
pub open spec fn at_cell(
    family: spec_fn(int) -> spec_fn(int, int) -> int,
    x: int,
    y: int,
) -> spec_fn(int) -> int {
    |i: int| family(i)(x, y)
}

/// At each place, the sum of the first `n` functions of a family.
pub open spec fn pooled(family: spec_fn(int) -> spec_fn(int, int) -> int, n: int) -> spec_fn(
    int,
    int,
) -> int {
    |x: int, y: int| sum(at_cell(family, x, y), n)
}

/// For each function of a family, its sum over the rectangle.
pub open spec fn grid_sums(
    family: spec_fn(int) -> spec_fn(int, int) -> int,
    width: int,
    height: int,
) -> spec_fn(int) -> int {
    |i: int| grid_sum(family(i), width, height)
}

/// Adding up a family of functions place by place and then over the
/// rectangle gives the same as adding up each over the rectangle first.
pub proof fn lemma_grid_family(
    family: spec_fn(int) -> spec_fn(int, int) -> int,
    width: int,
    height: int,
    n: int,
)
    ensures
        grid_sum(pooled(family, n), width, height) == sum(grid_sums(family, width, height), n),
    decreases n,
{
    if n <= 0 {
        assert forall|y: int| 0 <= y < height implies #[trigger] row_sums(
            pooled(family, n),
            width,
        )(y) == 0 by {
            lemma_sum_zero(row_of(pooled(family, n), y), width);
        }
        lemma_sum_zero(row_sums(pooled(family, n), width), height);
    } else {
        lemma_grid_family(family, width, height, n - 1);
        lemma_grid_split(
            pooled(family, n),
            pooled(family, n - 1),
            family(n - 1),
            width,
            height,
        );
    }
}

} // verus!
