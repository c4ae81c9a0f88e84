use vstd::prelude::*;

verus! {

/// The sum of `image(i, j)` over `y0 <= j < y1`, along row `i`.
pub open spec fn row_sum(image: spec_fn(int, int) -> int, i: int, y0: int, y1: int) -> int
    decreases y1 - y0,
{
    if y1 <= y0 {
        0
    } else {
        row_sum(image, i, y0, y1 - 1) + image(i, y1 - 1)
    }
}

/// The sum of `image(i, j)` over the rectangle `x0 <= i < x1`, `y0 <= j < y1`.
pub open spec fn rect_sum(image: spec_fn(int, int) -> int, x0: int, y0: int, x1: int, y1: int) -> int
    decreases x1 - x0,
{
    if x1 <= x0 {
        0
    } else {
        rect_sum(image, x0, y0, x1 - 1, y1) + row_sum(image, x1 - 1, y0, y1)
    }
}

/// The integral image of `image` at `(x, y)`: the sum over every cell above
/// and to the left of it, `0 <= i < x`, `0 <= j < y`.
pub open spec fn integral(image: spec_fn(int, int) -> int, x: int, y: int) -> int {
    rect_sum(image, 0, 0, x, y)
}

/// A rectangle splits in two along the first axis.
proof fn lemma_rect_split_x(image: spec_fn(int, int) -> int, x0: int, xm: int, x1: int, y0: int, y1: int)
    requires
        x0 <= xm <= x1,
    ensures
        rect_sum(image, x0, y0, x1, y1) == rect_sum(image, x0, y0, xm, y1) + rect_sum(
            image,
            xm,
            y0,
            x1,
            y1,
        ),
    decreases x1 - xm,
{
    if x1 > xm {
        lemma_rect_split_x(image, x0, xm, x1 - 1, y0, y1);
    }
}

/// A row splits in two.
proof fn lemma_row_split(image: spec_fn(int, int) -> int, i: int, y0: int, ym: int, y1: int)
    requires
        y0 <= ym <= y1,
    ensures
        row_sum(image, i, y0, y1) == row_sum(image, i, y0, ym) + row_sum(image, i, ym, y1),
    decreases y1 - ym,
{
    if y1 > ym {
        lemma_row_split(image, i, y0, ym, y1 - 1);
    }
}

/// A rectangle splits in two along the second axis.
proof fn lemma_rect_split_y(image: spec_fn(int, int) -> int, x0: int, x1: int, y0: int, ym: int, y1: int)
    requires
        y0 <= ym <= y1,
    ensures
        rect_sum(image, x0, y0, x1, y1) == rect_sum(image, x0, y0, x1, ym) + rect_sum(
            image,
            x0,
            ym,
            x1,
            y1,
        ),
    decreases x1 - x0,
{
    if x1 > x0 {
        lemma_rect_split_y(image, x0, x1 - 1, y0, ym, y1);
        lemma_row_split(image, x1 - 1, y0, ym, y1);
    }
}

/// Four values of the integral image give the sum over any rectangle:
/// `I(x1, y1) - I(x0, y1) - I(x1, y0) + I(x0, y0)` is the sum over
/// `x0 <= i < x1`, `y0 <= j < y1`.
pub proof fn lemma_integral_rectangle(image: spec_fn(int, int) -> int, x0: int, y0: int, x1: int, y1: int)
    requires
        0 <= x0 <= x1,
        0 <= y0 <= y1,
    ensures
        integral(image, x1, y1) - integral(image, x0, y1) - integral(image, x1, y0) + integral(
            image,
            x0,
            y0,
        ) == rect_sum(image, x0, y0, x1, y1),
{
    lemma_rect_split_x(image, 0, x0, x1, 0, y1);
    lemma_rect_split_x(image, 0, x0, x1, 0, y0);
    lemma_rect_split_y(image, x0, x1, 0, y0, y1);
}

} // verus!
