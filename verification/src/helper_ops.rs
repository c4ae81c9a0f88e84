use vstd::prelude::*;

use crate::grid::{Grid, has_shape, lemma_grid_shape};

verus! {

broadcast use lemma_grid_shape;

/// The rows of `s` in reverse order: the grid mirrored across its horizontal axis.
pub open spec fn flipped_across_x<T>(s: Seq<Seq<T>>) -> Seq<Seq<T>> {
    s.reverse()
}

/// Every row of `s` reversed: the grid mirrored across its vertical axis.
pub open spec fn flipped_across_y<T>(s: Seq<Seq<T>>) -> Seq<Seq<T>> {
    s.map_values(|row: Seq<T>| row.reverse())
}

/// Mirrors `matrix` across its horizontal axis: row `r` and row `nrows - 1 - r`
/// trade places.
pub fn flip_across_x<T: Copy>(matrix: &mut Grid<T>)
    ensures
        final(matrix).nrows() == old(matrix).nrows(),
        final(matrix).ncols() == old(matrix).ncols(),
        final(matrix)@ == flipped_across_x(old(matrix)@),
{
    let ghost orig = matrix@;
    let rows = matrix.rows();
    let cols = matrix.cols();
    let half = rows / 2;
    let mut col: usize = 0;
    while col < cols
        invariant
            col <= cols,
            rows == matrix.nrows(),
            rows == orig.len(),
            cols == matrix.ncols(),
            half == rows / 2,
            has_shape(orig, rows as nat, cols as nat),
            forall|r: int, c: int|
                0 <= r < rows && 0 <= c < cols ==> #[trigger] matrix@[r][c] == if c < col {
                    orig[rows - 1 - r][c]
                } else {
                    orig[r][c]
                },
        decreases cols - col,
    {
        let mut row: usize = 0;
        while row < half
            invariant
                col < cols,
                row <= half,
                rows == matrix.nrows(),
                rows == orig.len(),
                cols == matrix.ncols(),
                half == rows / 2,
                has_shape(orig, rows as nat, cols as nat),
                forall|r: int, c: int|
                    0 <= r < rows && 0 <= c < cols ==> #[trigger] matrix@[r][c] == if c < col
                        || (c == col && (r < row || rows - 1 - r < row)) {
                        orig[rows - 1 - r][c]
                    } else {
                        orig[r][c]
                    },
            decreases half - row,
        {
            // The cells before this step, named so that the invariant is read on them.
            let ghost before = matrix@;
            matrix.swap(row, col, rows - 1 - row, col);
            assert forall|r: int, c: int| 0 <= r < rows && 0 <= c < cols implies #[trigger] matrix@[r][c]
                == if c < col || (c == col && (r < row + 1 || rows - 1 - r < row + 1)) {
                orig[rows - 1 - r][c]
            } else {
                orig[r][c]
            } by {
            }
            row = row + 1;
        }
        col = col + 1;
    }
    assert(matrix@ =~= flipped_across_x(orig)) by {
        assert forall|r: int| 0 <= r < rows implies #[trigger] matrix@[r] =~= flipped_across_x(
            orig,
        )[r] by {
            assert forall|c: int| 0 <= c < cols implies matrix@[r][c] == flipped_across_x(
                orig,
            )[r][c] by {
                assert(matrix@[r][c] == orig[rows - 1 - r][c]);
            }
        }
    }
}

/// Mirrors `matrix` across its vertical axis: in every row, column `c` and
/// column `ncols - 1 - c` trade places.
pub fn flip_across_y<T: Copy>(matrix: &mut Grid<T>)
    ensures
        final(matrix).nrows() == old(matrix).nrows(),
        final(matrix).ncols() == old(matrix).ncols(),
        final(matrix)@ == flipped_across_y(old(matrix)@),
{
    let ghost orig = matrix@;
    let rows = matrix.rows();
    let cols = matrix.cols();
    let half = cols / 2;
    let mut row: usize = 0;
    while row < rows
        invariant
            row <= rows,
            rows == matrix.nrows(),
            rows == orig.len(),
            cols == matrix.ncols(),
            half == cols / 2,
            has_shape(orig, rows as nat, cols as nat),
            forall|r: int, c: int|
                0 <= r < rows && 0 <= c < cols ==> #[trigger] matrix@[r][c] == if r < row {
                    orig[r][cols - 1 - c]
                } else {
                    orig[r][c]
                },
        decreases rows - row,
    {
        let mut col: usize = 0;
        while col < half
            invariant
                row < rows,
                col <= half,
                rows == matrix.nrows(),
                rows == orig.len(),
                cols == matrix.ncols(),
                half == cols / 2,
                has_shape(orig, rows as nat, cols as nat),
                forall|r: int, c: int|
                    0 <= r < rows && 0 <= c < cols ==> #[trigger] matrix@[r][c] == if r < row
                        || (r == row && (c < col || cols - 1 - c < col)) {
                        orig[r][cols - 1 - c]
                    } else {
                        orig[r][c]
                    },
            decreases half - col,
        {
            // The cells before this step, named so that the invariant is read on them.
            let ghost before = matrix@;
            matrix.swap(row, col, row, cols - 1 - col);
            assert forall|r: int, c: int| 0 <= r < rows && 0 <= c < cols implies #[trigger] matrix@[r][c]
                == if r < row || (r == row && (c < col + 1 || cols - 1 - c < col + 1)) {
                orig[r][cols - 1 - c]
            } else {
                orig[r][c]
            } by {
            }
            col = col + 1;
        }
        row = row + 1;
    }
    assert(matrix@ =~= flipped_across_y(orig)) by {
        assert forall|r: int| 0 <= r < rows implies #[trigger] matrix@[r] =~= flipped_across_y(
            orig,
        )[r] by {
            assert forall|c: int| 0 <= c < cols implies matrix@[r][c] == flipped_across_y(
                orig,
            )[r][c] by {
                assert(matrix@[r][c] == orig[r][cols - 1 - c]);
            }
        }
    }
}

/// Mirrors `matrix` across both axes (a half turn): first across the
/// horizontal axis, then across the vertical one.
pub fn flip_2d<T: Copy>(matrix: &mut Grid<T>)
    ensures
        final(matrix).nrows() == old(matrix).nrows(),
        final(matrix).ncols() == old(matrix).ncols(),
        final(matrix)@ == flipped_across_y(flipped_across_x(old(matrix)@)),
{
    flip_across_x(matrix);
    flip_across_y(matrix);
}

/// Mirroring across the horizontal axis twice gives back the grid.
pub proof fn lemma_flip_across_x_twice<T>(s: Seq<Seq<T>>)
    ensures
        flipped_across_x(flipped_across_x(s)) == s,
{
    assert(flipped_across_x(flipped_across_x(s)) =~= s);
}

/// Mirroring across the vertical axis twice gives back the grid.
pub proof fn lemma_flip_across_y_twice<T>(s: Seq<Seq<T>>)
    ensures
        flipped_across_y(flipped_across_y(s)) == s,
{
    assert forall|r: int| 0 <= r < s.len() implies #[trigger] flipped_across_y(
        flipped_across_y(s),
    )[r] =~= s[r] by {}
    assert(flipped_across_y(flipped_across_y(s)) =~= s);
}

/// The two mirrorings commute: which axis is mirrored first does not matter.
pub proof fn lemma_flips_commute<T>(s: Seq<Seq<T>>)
    ensures
        flipped_across_y(flipped_across_x(s)) == flipped_across_x(flipped_across_y(s)),
{
    assert(flipped_across_y(flipped_across_x(s)) =~= flipped_across_x(flipped_across_y(s)));
}

/// Mirroring across both axes is a half turn: the cell at `(r, c)` comes from
/// `(nrows - 1 - r, ncols - 1 - c)`; doing it twice gives back the grid.
pub proof fn lemma_flip_2d_half_turn<T>(s: Seq<Seq<T>>, rows: nat, cols: nat)
    requires
        has_shape(s, rows, cols),
    ensures
        has_shape(flipped_across_y(flipped_across_x(s)), rows, cols),
        forall|r: int, c: int|
            0 <= r < rows && 0 <= c < cols ==> #[trigger] flipped_across_y(flipped_across_x(s))[r][c]
                == s[rows - 1 - r][cols - 1 - c],
        flipped_across_y(flipped_across_x(flipped_across_y(flipped_across_x(s)))) == s,
{
    let once = flipped_across_y(flipped_across_x(s));
    assert forall|r: int| 0 <= r < rows implies #[trigger] flipped_across_y(flipped_across_x(once))[r]
        =~= s[r] by {}
    assert(flipped_across_y(flipped_across_x(once)) =~= s);
}

/// Row `i` of the flipped rows of `m`: the row itself, or, where `dimension
/// > 0`, the row as far from the end as `i` is from the start, and reversed
/// in either case.
pub open spec fn flipped_row<T>(m: Seq<Vec<T>>, dimension: usize, i: int) -> Seq<T> {
    if dimension > 0 {
        m[m.len() - 1 - i]@.reverse()
    } else {
        m[i]@.reverse()
    }
}

/// A copy of the rows of `matrix` with every row reversed and, where
/// `dimension > 0`, the order of the rows reversed as well.  The rows need not
/// all have one length.
pub fn flip_rows<T: Copy>(matrix: &Vec<Vec<T>>, dimension: usize) -> (res: Vec<Vec<T>>)
    ensures
        res@.len() == matrix@.len(),
        forall|i: int| 0 <= i < matrix@.len() ==> #[trigger] res@[i]@ == flipped_row(
            matrix@,
            dimension,
            i,
        ),
{
    let n = matrix.len();
    let mut res: Vec<Vec<T>> = Vec::new();
    let mut i: usize = 0;
    while i < n
        invariant
            i <= n,
            n == matrix@.len(),
            res@.len() == i,
            forall|k: int| 0 <= k < i ==> #[trigger] res@[k]@ == flipped_row(
                matrix@,
                dimension,
                k,
            ),
        decreases n - i,
    {
        let source = if dimension > 0 {
            &matrix[n - 1 - i]
        } else {
            &matrix[i]
        };
        let len = source.len();
        let mut row: Vec<T> = Vec::new();
        let mut j: usize = 0;
        while j < len
            invariant
                j <= len,
                len == source@.len(),
                row@.len() == j,
                forall|k: int| 0 <= k < j ==> #[trigger] row@[k] == source@[len - 1 - k],
            decreases len - j,
        {
            row.push(source[len - 1 - j]);
            j = j + 1;
        }
        assert(row@ =~= source@.reverse());
        res.push(row);
        i = i + 1;
    }
    res
}

/// Where a full convolution of a `b0 x b1` image with a `k0 x k1` kernel puts
/// things: the image is zero-padded to `pad_width x pad_height` with its first
/// pixel at `(offset_x, offset_y)`, and the result has
/// `result_rows x result_cols` cells.
pub struct ConvLayout {
    pub offset_x: usize,
    pub offset_y: usize,
    pub pad_width: usize,
    pub pad_height: usize,
    pub result_rows: usize,
    pub result_cols: usize,
}

/// The layout of a full convolution of an image of `base_shape` with a
/// kernel of `kernel_shape`: padding offsets `(k0 - 1, k1 - 1)`, padded size
/// `(b0 + 2 (k0 - 1)) x (b1 + 2 (k1 - 1))`, result size
/// `(b0 + k0 - 1) x (b1 + k1 - 1)`.  `None` where the kernel has no cell
/// along an axis or a size leaves the range of `usize`.  Every cell that
/// the convolution reads, result cell plus kernel cell, lies in the padded
/// image.
pub fn convolution_layout(base_shape: (usize, usize), kernel_shape: (usize, usize)) -> (res:
    Option<ConvLayout>)
    ensures
        res is Some <==> (kernel_shape.0 >= 1 && kernel_shape.1 >= 1 && base_shape.0 + 2 * (
        kernel_shape.0 - 1) <= usize::MAX && base_shape.1 + 2 * (kernel_shape.1 - 1)
            <= usize::MAX),
        res matches Some(l) ==> {
            &&& l.offset_x == kernel_shape.0 - 1
            &&& l.offset_y == kernel_shape.1 - 1
            &&& base_shape.0 + l.offset_x <= l.pad_width
            &&& base_shape.1 + l.offset_y <= l.pad_height
            &&& l.pad_width == base_shape.0 + 2 * (kernel_shape.0 - 1)
            &&& l.pad_height == base_shape.1 + 2 * (kernel_shape.1 - 1)
            &&& l.result_rows == base_shape.0 + kernel_shape.0 - 1
            &&& l.result_cols == base_shape.1 + kernel_shape.1 - 1
            &&& l.result_rows + kernel_shape.0 - 1 == l.pad_width
            &&& l.result_cols + kernel_shape.1 - 1 == l.pad_height
        },
{
    if kernel_shape.0 == 0 || kernel_shape.1 == 0 {
        return None;
    }
    let k0 = kernel_shape.0 - 1;
    let k1 = kernel_shape.1 - 1;
    let pad_width = base_shape.0.checked_add(k0.checked_mul(2)?)?;
    let pad_height = base_shape.1.checked_add(k1.checked_mul(2)?)?;
    Some(
        ConvLayout {
            offset_x: k0,
            offset_y: k1,
            pad_width,
            pad_height,
            result_rows: base_shape.0 + k0,
            result_cols: base_shape.1 + k1,
        },
    )
}

/// The part of a full convolution `full` of an image of `base_shape` with a
/// kernel of `kernel_shape` that a same-size convolution keeps: the
/// `b0 x b1` cells from `((k0 - 1) / 2, (k1 - 1) / 2)` on, so that the result
/// has the image's shape.
pub fn same_size_crop<T: Copy>(
    full: &Grid<T>,
    kernel_shape: (usize, usize),
    base_shape: (usize, usize),
) -> (res: Grid<T>)
    requires
        kernel_shape.0 >= 1,
        kernel_shape.1 >= 1,
        full.nrows() == base_shape.0 + kernel_shape.0 - 1,
        full.ncols() == base_shape.1 + kernel_shape.1 - 1,
    ensures
        res.nrows() == base_shape.0,
        res.ncols() == base_shape.1,
        forall|i: int, j: int|
            0 <= i < base_shape.0 && 0 <= j < base_shape.1 ==> #[trigger] res@[i][j] == full@[i
                + (kernel_shape.0 - 1) / 2][j + (kernel_shape.1 - 1) / 2],
{
    let rows = base_shape.0;
    let cols = base_shape.1;
    let top = (kernel_shape.0 - 1) / 2;
    let left = (kernel_shape.1 - 1) / 2;
    let full_rows = full.rows();
    let full_cols = full.cols();
    let size = full.size();
    assert(rows * cols <= size) by (nonlinear_arith)
        requires
            size == full_rows * full_cols,
            rows <= full_rows,
            cols <= full_cols,
    ;
    if rows == 0 || cols == 0 {
        assert(rows * cols == 0) by (nonlinear_arith)
            requires
                rows == 0 || cols == 0,
        ;
        return Grid::from_vec(rows, cols, Vec::new()).unwrap();
    }
    let mut result = Grid::filled(rows, cols, *full.get(top, left));
    let mut i: usize = 0;
    while i < rows
        invariant
            i <= rows,
            rows == base_shape.0,
            cols == base_shape.1,
            top == (kernel_shape.0 - 1) / 2,
            left == (kernel_shape.1 - 1) / 2,
            full_rows == full.nrows(),
            full_cols == full.ncols(),
            full.nrows() == base_shape.0 + kernel_shape.0 - 1,
            full.ncols() == base_shape.1 + kernel_shape.1 - 1,
            result.nrows() == rows,
            result.ncols() == cols,
            forall|a: int, b: int|
                0 <= a < i && 0 <= b < cols ==> #[trigger] result@[a][b] == full@[a + top][b
                    + left],
        decreases rows - i,
    {
        let mut j: usize = 0;
        while j < cols
            invariant
                i < rows,
                j <= cols,
                rows == base_shape.0,
                cols == base_shape.1,
                top == (kernel_shape.0 - 1) / 2,
                left == (kernel_shape.1 - 1) / 2,
                full_rows == full.nrows(),
                full_cols == full.ncols(),
                full.nrows() == base_shape.0 + kernel_shape.0 - 1,
                full.ncols() == base_shape.1 + kernel_shape.1 - 1,
                result.nrows() == rows,
                result.ncols() == cols,
                forall|a: int, b: int|
                    (0 <= a < i && 0 <= b < cols) || (a == i && 0 <= b < j) ==> #[trigger] result@[a][b]
                        == full@[a + top][b + left],
            decreases cols - j,
        {
            let v = *full.get(i + top, j + left);
            // The cells before this step, named so that the invariant is read on them.
            let ghost before = result@;
            result.set(i, j, v);
            assert forall|a: int, b: int|
                (0 <= a < i && 0 <= b < cols) || (a == i && 0 <= b < j + 1) implies #[trigger] result@[a][b]
                == full@[a + top][b + left] by {
            }
            j = j + 1;
        }
        i = i + 1;
    }
    result
}

/// The `new_width x new_height` grid that holds `base` (of `base_cols` columns)
/// with its first cell at `(offset_x, offset_y)`, and `zero` in every other cell.
pub open spec fn zero_padded<T>(
    base: Seq<Seq<T>>,
    base_cols: nat,
    offset_x: nat,
    offset_y: nat,
    new_width: nat,
    new_height: nat,
    zero: T,
) -> Seq<Seq<T>> {
    Seq::new(
        new_width,
        |r: int|
            Seq::new(
                new_height,
                |c: int|
                    if offset_x <= r < offset_x + base.len() && offset_y <= c < offset_y
                        + base_cols {
                        base[r - offset_x][c - offset_y]
                    } else {
                        zero
                    },
            ),
    )
}

/// Padding places every cell of the image at its offset, keeps the new shape,
/// and leaves `zero` in every cell that no image cell lands on.
pub proof fn lemma_zero_padded_places_base<T>(
    base: Seq<Seq<T>>,
    base_cols: nat,
    offset_x: nat,
    offset_y: nat,
    new_width: nat,
    new_height: nat,
    zero: T,
)
    requires
        has_shape(base, base.len(), base_cols),
        base.len() == 0 || base_cols == 0 || (base.len() + offset_x <= new_width && base_cols
            + offset_y <= new_height),
    ensures
        ({
            let p = zero_padded(base, base_cols, offset_x, offset_y, new_width, new_height, zero);
            &&& has_shape(p, new_width, new_height)
            &&& forall|r: int, c: int|
                0 <= r < base.len() && 0 <= c < base_cols ==> #[trigger] p[r + offset_x][c
                    + offset_y] == base[r][c]
            &&& forall|r: int, c: int|
                0 <= r < new_width && 0 <= c < new_height && !(offset_x <= r < offset_x
                    + base.len() && offset_y <= c < offset_y + base_cols) ==> #[trigger] p[r][c]
                    == zero
        }),
{
    let p = zero_padded(base, base_cols, offset_x, offset_y, new_width, new_height, zero);
    assert forall|r: int, c: int| 0 <= r < base.len() && 0 <= c < base_cols implies #[trigger] p[r
        + offset_x][c + offset_y] == base[r][c] by {
        assert(r + offset_x < new_width && c + offset_y < new_height);
    }
}

/// A `new_width x new_height` grid of `zero` with `base` laid over it, the
/// first cell of `base` at `(offset_x, offset_y)`.
///
/// `base` must fit inside the new grid at that place, unless it has no cell.
pub fn zero_pad<T: Copy>(
    base: &Grid<T>,
    offset_x: usize,
    offset_y: usize,
    new_width: usize,
    new_height: usize,
    zero: T,
) -> (res: Grid<T>)
    requires
        new_width * new_height <= usize::MAX,
        base.nrows() == 0 || base.ncols() == 0 || (base.nrows() + offset_x <= new_width
            && base.ncols() + offset_y <= new_height),
    ensures
        res.nrows() == new_width,
        res.ncols() == new_height,
        res@ == zero_padded(
            base@,
            base.ncols(),
            offset_x as nat,
            offset_y as nat,
            new_width as nat,
            new_height as nat,
            zero,
        ),
        forall|r: int, c: int|
            0 <= r < base.nrows() && 0 <= c < base.ncols() ==> #[trigger] res@[r + offset_x][c
                + offset_y] == base@[r][c],
        forall|r: int, c: int|
            0 <= r < new_width && 0 <= c < new_height && !(offset_x <= r < offset_x + base.nrows()
                && offset_y <= c < offset_y + base.ncols()) ==> #[trigger] res@[r][c] == zero,
{
    let mut result = Grid::filled(new_width, new_height, zero);
    let rows = base.rows();
    let cols = base.cols();
    let ghost target = zero_padded(
        base@,
        cols as nat,
        offset_x as nat,
        offset_y as nat,
        new_width as nat,
        new_height as nat,
        zero,
    );
    if rows > 0 && cols > 0 {
        let mut i: usize = 0;
        while i < rows
            invariant
                i <= rows,
                rows == base.nrows(),
                cols == base.ncols(),
                rows > 0 && cols > 0,
                rows + offset_x <= new_width,
                cols + offset_y <= new_height,
                result.nrows() == new_width,
                result.ncols() == new_height,
                target == zero_padded(
                    base@,
                    cols as nat,
                    offset_x as nat,
                    offset_y as nat,
                    new_width as nat,
                    new_height as nat,
                    zero,
                ),
                forall|r: int, c: int|
                    0 <= r < new_width && 0 <= c < new_height ==> #[trigger] result@[r][c] == if r
                        < offset_x + i {
                        target[r][c]
                    } else {
                        zero
                    },
            decreases rows - i,
        {
            let mut j: usize = 0;
            while j < cols
                invariant
                    i < rows,
                    j <= cols,
                    rows == base.nrows(),
                    cols == base.ncols(),
                    rows + offset_x <= new_width,
                    cols + offset_y <= new_height,
                    result.nrows() == new_width,
                    result.ncols() == new_height,
                    target == zero_padded(
                        base@,
                        cols as nat,
                        offset_x as nat,
                        offset_y as nat,
                        new_width as nat,
                        new_height as nat,
                        zero,
                    ),
                    forall|r: int, c: int|
                        0 <= r < new_width && 0 <= c < new_height ==> #[trigger] result@[r][c]
                            == if r < offset_x + i || (r == offset_x + i && c < offset_y + j) {
                            target[r][c]
                        } else {
                            zero
                        },
                decreases cols - j,
            {
                let v = *base.get(i, j);
                // The cells before this step, named so that the invariant is read on them.
                let ghost before = result@;
                result.set(i + offset_x, j + offset_y, v);
                assert forall|r: int, c: int|
                    0 <= r < new_width && 0 <= c < new_height implies #[trigger] result@[r][c]
                        == if r < offset_x + i || (r == offset_x + i && c < offset_y + j + 1) {
                        target[r][c]
                    } else {
                        zero
                    } by {
                }
                j = j + 1;
            }
            i = i + 1;
        }
    }
    proof {
        lemma_zero_padded_places_base(
            base@,
            cols as nat,
            offset_x as nat,
            offset_y as nat,
            new_width as nat,
            new_height as nat,
            zero,
        );
    }
    assert(result@ =~= target) by {
        assert forall|r: int| 0 <= r < new_width implies #[trigger] result@[r] =~= target[r] by {
            assert forall|c: int| 0 <= c < new_height implies result@[r][c] == target[r][c] by {
            }
        }
    }
    result
}

} // verus!
