use vstd::prelude::*;

use crate::integral::{rect_sum, row_sum};

verus! {

/// How many of the `len` cells from `start` on (`start <= i < start + len`)
/// lie among the `n` cells `0 <= i < n`.
pub open spec fn overlap(start: int, len: int, n: int) -> int {
    let lo = if start > 0 { start } else { 0 };
    let hi = if start + len < n { start + len } else { n };
    if hi > lo { hi - lo } else { 0 }
}

/// The number of image cells in the local-statistics window of pixel
/// `(col, row)` of a `base_width x base_height` image (`col` along the first
/// axis, `row` along the second).  The statistics pad the image by
/// `(window_width + 1) / 2` cells along the first axis and
/// `(window_height + 1) / 2` along the second, and sum the
/// `window_width x window_height` cells of the padded image from `(col, row)`
/// on; in the image's own coordinates the window starts at
/// `(col - (window_width + 1) / 2, row - (window_height + 1) / 2)`, and the
/// count is the part of it that lies inside the image.
pub open spec fn window_count(
    col: int,
    row: int,
    base_width: int,
    base_height: int,
    window_height: int,
    window_width: int,
) -> int {
    overlap(col - (window_width + 1) / 2, window_width, base_width) * overlap(
        row - (window_height + 1) / 2,
        window_height,
        base_height,
    )
}

/// The image of `width x height` cells as an indicator: 1 on its cells, 0
/// off it.
pub open spec fn image_cells(width: int, height: int) -> spec_fn(int, int) -> int {
    |i: int, j: int| if 0 <= i < width && 0 <= j < height { 1int } else { 0int }
}

/// One row of the indicator counts the row's overlap with the image.
proof fn lemma_row_count(width: int, height: int, i: int, y0: int, y1: int)
    requires
        y0 <= y1,
    ensures
        row_sum(image_cells(width, height), i, y0, y1) == if 0 <= i < width {
            overlap(y0, y1 - y0, height)
        } else {
            0
        },
    decreases y1 - y0,
{
    if y1 > y0 {
        lemma_row_count(width, height, i, y0, y1 - 1);
    }
}

/// A rectangle of the indicator counts the image cells inside it.
proof fn lemma_rect_count(width: int, height: int, x0: int, y0: int, x1: int, y1: int)
    requires
        x0 <= x1,
        y0 <= y1,
    ensures
        rect_sum(image_cells(width, height), x0, y0, x1, y1) == overlap(x0, x1 - x0, width)
            * overlap(y0, y1 - y0, height),
    decreases x1 - x0,
{
    let oy = overlap(y0, y1 - y0, height);
    if x1 > x0 {
        lemma_rect_count(width, height, x0, y0, x1 - 1, y1);
        lemma_row_count(width, height, x1 - 1, y0, y1);
        let before = overlap(x0, x1 - 1 - x0, width);
        let step: int = if 0 <= x1 - 1 < width { 1 } else { 0 };
        assert(overlap(x0, x1 - x0, width) == before + step);
        assert(before * oy + step * oy == (before + step) * oy) by (nonlinear_arith);
    } else {
        assert(overlap(x0, 0, width) == 0);
    }
}

/// The window count is the number of cells of the image that lie in the
/// window the statistics sum: the `window_width x window_height` cells from
/// `(col - (window_width + 1) / 2, row - (window_height + 1) / 2)` on.  A
/// window that lies wholly inside the image counts all its cells.
pub proof fn lemma_window_count_is_cells_inside(
    col: int,
    row: int,
    base_width: int,
    base_height: int,
    window_height: int,
    window_width: int,
)
    requires
        0 <= window_height,
        0 <= window_width,
    ensures
        ({
            let x0 = col - (window_width + 1) / 2;
            let y0 = row - (window_height + 1) / 2;
            window_count(col, row, base_width, base_height, window_height, window_width)
                == rect_sum(
                image_cells(base_width, base_height),
                x0,
                y0,
                x0 + window_width,
                y0 + window_height,
            )
        }),
        col - (window_width + 1) / 2 >= 0 && col - (window_width + 1) / 2 + window_width
            <= base_width && row - (window_height + 1) / 2 >= 0 && row - (window_height + 1) / 2
            + window_height <= base_height ==> window_count(
            col,
            row,
            base_width,
            base_height,
            window_height,
            window_width,
        ) == window_width * window_height,
{
    let x0 = col - (window_width + 1) / 2;
    let y0 = row - (window_height + 1) / 2;
    lemma_rect_count(base_width, base_height, x0, y0, x0 + window_width, y0 + window_height);
}

/// `overlap(start, len, n)` for a window that starts `offset` cells before
/// `pos`, where `offset <= len`.
fn overlap_count(pos: usize, offset: usize, len: usize, n: usize) -> (k: usize)
    requires
        offset <= len,
        pos < n,
    ensures
        k == overlap(pos - offset, len as int, n as int),
        k <= len,
        k <= n,
{
    let lo = if pos >= offset {
        pos - offset
    } else {
        0
    };
    let ahead = len - offset;
    let hi = if ahead < n - pos {
        pos + ahead
    } else {
        n
    };
    if hi > lo {
        hi - lo
    } else {
        0
    }
}

/// The number of image cells in the local-statistics window of pixel
/// `(col, row)`; see `window_count`.  It never exceeds the window, and a
/// window that lies wholly inside the image counts all its cells.
pub fn window_element_count(
    col: usize,
    row: usize,
    base_width: usize,
    base_height: usize,
    window_height: usize,
    window_width: usize,
) -> (res: usize)
    requires
        col < base_width,
        row < base_height,
        base_width * base_height <= usize::MAX,
    ensures
        res == window_count(
            col as int,
            row as int,
            base_width as int,
            base_height as int,
            window_height as int,
            window_width as int,
        ),
        res <= window_width * window_height,
        col >= (window_width + 1) / 2 && col - (window_width + 1) / 2 + window_width <= base_width
            && row >= (window_height + 1) / 2 && row - (window_height + 1) / 2 + window_height
            <= base_height ==> res == window_width * window_height,
{
    // `(n + 1) / 2`, reckoned without overflow.
    let pad_x = window_width / 2 + window_width % 2;
    let pad_y = window_height / 2 + window_height % 2;
    let along_x = overlap_count(col, pad_x, window_width, base_width);
    let along_y = overlap_count(row, pad_y, window_height, base_height);
    assert(along_x * along_y <= base_width * base_height && along_x * along_y <= window_width
        * window_height) by (nonlinear_arith)
        requires
            along_x <= base_width,
            along_y <= base_height,
            along_x <= window_width,
            along_y <= window_height,
    ;
    along_x * along_y
}

} // verus!
