use vstd::prelude::*;

use crate::grid::{Grid, lemma_flat_index_bound, lemma_grid_shape};
use crate::order_key::{greater, greater_or_equal, key_ge, key_gt, key_in_range};

verus! {

broadcast use lemma_grid_shape;

/// The four directions an edge through a pixel can take (the normal of the
/// gradient rounded to a multiple of 45 degrees), and `Broken` for an angle
/// that fits none of them.
#[derive(Clone, Copy, PartialEq, Eq, Debug)]
pub enum EdgeOrientation {
    Vertical,
    NegDiagonal,
    Horizontal,
    PosDiagonal,
    Broken,
}

/// The direction of an edge through a pixel, and the two pixels across the
/// edge (as `(column, row)` offsets) against which the pixel's gradient
/// magnitude is compared.
pub struct EdgeLine {
    name: String,
    adjacent1: (i32, i32),
    adjacent2: (i32, i32),
}

/// The name of an edge direction.
pub open spec fn orientation_name(o: EdgeOrientation) -> Seq<char> {
    match o {
        EdgeOrientation::Vertical => "vertical_edge"@,
        EdgeOrientation::NegDiagonal => "neg_45_edge"@,
        EdgeOrientation::Horizontal => "horizontal_edge"@,
        EdgeOrientation::PosDiagonal => "pos_45_edge"@,
        EdgeOrientation::Broken => "broken"@,
    }
}

/// The offset of the first pixel across an edge of direction `o`.
pub open spec fn first_neighbour(o: EdgeOrientation) -> (i32, i32) {
    match o {
        EdgeOrientation::Vertical => (1i32, 0i32),
        EdgeOrientation::NegDiagonal => (1i32, 1i32),
        EdgeOrientation::Horizontal => (0i32, 1i32),
        EdgeOrientation::PosDiagonal => (-1i32, 1i32),
        EdgeOrientation::Broken => (100i32, 100i32),
    }
}

/// The offset of the second pixel across an edge of direction `o`.
pub open spec fn second_neighbour(o: EdgeOrientation) -> (i32, i32) {
    match o {
        EdgeOrientation::Vertical => (-1i32, 0i32),
        EdgeOrientation::NegDiagonal => (-1i32, -1i32),
        EdgeOrientation::Horizontal => (0i32, -1i32),
        EdgeOrientation::PosDiagonal => (1i32, -1i32),
        EdgeOrientation::Broken => (-100i32, -100i32),
    }
}

impl EdgeLine {
    pub closed spec fn spec_name(&self) -> Seq<char> {
        self.name@
    }

    pub closed spec fn spec_adjacent1(&self) -> (i32, i32) {
        self.adjacent1
    }

    pub closed spec fn spec_adjacent2(&self) -> (i32, i32) {
        self.adjacent2
    }

    /// The edge line of direction `o`.
    pub fn for_orientation(o: EdgeOrientation) -> (e: EdgeLine)
        ensures
            e.spec_name() == orientation_name(o),
            e.spec_adjacent1() == first_neighbour(o),
            e.spec_adjacent2() == second_neighbour(o),
            e.spec_adjacent2().0 == -e.spec_adjacent1().0,
            e.spec_adjacent2().1 == -e.spec_adjacent1().1,
    {
        match o {
            EdgeOrientation::Vertical => EdgeLine {
                name: "vertical_edge".to_owned(),
                adjacent1: (1, 0),
                adjacent2: (-1, 0),
            },
            EdgeOrientation::NegDiagonal => EdgeLine {
                name: "neg_45_edge".to_owned(),
                adjacent1: (1, 1),
                adjacent2: (-1, -1),
            },
            EdgeOrientation::Horizontal => EdgeLine {
                name: "horizontal_edge".to_owned(),
                adjacent1: (0, 1),
                adjacent2: (0, -1),
            },
            EdgeOrientation::PosDiagonal => EdgeLine {
                name: "pos_45_edge".to_owned(),
                adjacent1: (-1, 1),
                adjacent2: (1, -1),
            },
            EdgeOrientation::Broken => EdgeLine {
                name: "broken".to_owned(),
                adjacent1: (100, 100),
                adjacent2: (-100, -100),
            },
        }
    }

    /// The name of the edge direction.
    pub fn name(&self) -> (s: &str)
        ensures
            s@ == self.spec_name(),
    {
        self.name.as_str()
    }

    /// The offset of the first pixel across the edge.
    pub fn adjacent1(&self) -> (a: (i32, i32))
        ensures
            a == self.spec_adjacent1(),
    {
        self.adjacent1
    }

    /// The offset of the second pixel across the edge.
    pub fn adjacent2(&self) -> (a: (i32, i32))
        ensures
            a == self.spec_adjacent2(),
    {
        self.adjacent2
    }
}

/// The order keys (see `order_key`) of the angles `pi/8`, `3pi/8`, `5pi/8`,
/// `7pi/8` and `pi` that bound the ranges of edge directions; the negated
/// angles have the negated keys.
pub struct AngleBounds {
    pub pi_8: i32,
    pub three_pi_8: i32,
    pub five_pi_8: i32,
    pub seven_pi_8: i32,
    pub pi: i32,
}

/// The direction of the edge whose normal has the angle of key `a` (`None`
/// for an angle that is not a number), by the first of these closed ranges
/// that holds it: `[-pi/8, pi/8]` vertical, `[pi/8, 3pi/8]` -45 degrees,
/// `[3pi/8, 5pi/8]` horizontal, `[5pi/8, 7pi/8]` +45 degrees, `[7pi/8, pi]`
/// or `[-pi, -7pi/8]` vertical, `[-7pi/8, -5pi/8]` -45 degrees,
/// `[-5pi/8, -3pi/8]` horizontal, `[-3pi/8, -pi/8]` +45 degrees; `Broken`
/// where none holds it.
pub open spec fn orientation_of(a: Option<i32>, b: AngleBounds) -> EdgeOrientation {
    if key_in_range(a, -b.pi_8, b.pi_8 as int) {
        EdgeOrientation::Vertical
    } else if key_in_range(a, b.pi_8 as int, b.three_pi_8 as int) {
        EdgeOrientation::NegDiagonal
    } else if key_in_range(a, b.three_pi_8 as int, b.five_pi_8 as int) {
        EdgeOrientation::Horizontal
    } else if key_in_range(a, b.five_pi_8 as int, b.seven_pi_8 as int) {
        EdgeOrientation::PosDiagonal
    } else if key_in_range(a, b.seven_pi_8 as int, b.pi as int) || key_in_range(
        a,
        -b.pi,
        -b.seven_pi_8,
    ) {
        EdgeOrientation::Vertical
    } else if key_in_range(a, -b.seven_pi_8, -b.five_pi_8) {
        EdgeOrientation::NegDiagonal
    } else if key_in_range(a, -b.five_pi_8, -b.three_pi_8) {
        EdgeOrientation::Horizontal
    } else if key_in_range(a, -b.three_pi_8, -b.pi_8) {
        EdgeOrientation::PosDiagonal
    } else {
        EdgeOrientation::Broken
    }
}

/// The direction of the mirrored edge: mirroring the angle across zero keeps
/// vertical and horizontal edges and swaps the two diagonals.
pub open spec fn mirrored(o: EdgeOrientation) -> EdgeOrientation {
    match o {
        EdgeOrientation::NegDiagonal => EdgeOrientation::PosDiagonal,
        EdgeOrientation::PosDiagonal => EdgeOrientation::NegDiagonal,
        other => other,
    }
}

/// The bounds increase from zero: `0 <= pi/8 <= 3pi/8 <= 5pi/8 <= 7pi/8 <= pi`.
pub open spec fn bounds_ordered(b: AngleBounds) -> bool {
    0 <= b.pi_8 <= b.three_pi_8 <= b.five_pi_8 <= b.seven_pi_8 <= b.pi
}

/// An angle within `pi/8` of zero, either side, has a vertical edge.
pub proof fn lemma_small_angles_vertical(a: i32, b: AngleBounds)
    requires
        -b.pi_8 <= a <= b.pi_8,
    ensures
        orientation_of(Some(a), b) == EdgeOrientation::Vertical,
{
}

/// Every angle from `-pi` to `pi` has an edge direction, and an angle that
/// is not a number has none.
pub proof fn lemma_every_angle_has_direction(a: i32, b: AngleBounds)
    requires
        bounds_ordered(b),
        -b.pi <= a <= b.pi,
    ensures
        orientation_of(Some(a), b) != EdgeOrientation::Broken,
        orientation_of(None, b) == EdgeOrientation::Broken,
{
}

/// Negating an angle mirrors its edge: vertical stays vertical, horizontal
/// stays horizontal and the diagonals swap; this holds for every angle that
/// is not itself one of the bounds, where the closed ranges meet.
pub proof fn lemma_orientation_mirror(a: i32, b: AngleBounds)
    requires
        bounds_ordered(b),
        a > i32::MIN,
        a != b.pi_8 && a != -b.pi_8,
        a != b.three_pi_8 && a != -b.three_pi_8,
        a != b.five_pi_8 && a != -b.five_pi_8,
        a != b.seven_pi_8 && a != -b.seven_pi_8,
    ensures
        orientation_of(Some((-a) as i32), b) == mirrored(orientation_of(Some(a), b)),
{
}

/// Whether key `a` lies in the closed range from `lo` to `hi`.
fn in_range(a: Option<i32>, lo: i64, hi: i64) -> (b: bool)
    ensures
        b == key_in_range(a, lo as int, hi as int),
{
    match a {
        Some(k) => lo <= k as i64 && k as i64 <= hi,
        None => false,
    }
}

/// The direction of the edge whose normal has the angle of key `angle`;
/// see `orientation_of`.
pub fn normal_orientation(angle: Option<i32>, bounds: &AngleBounds) -> (o: EdgeOrientation)
    ensures
        o == orientation_of(angle, *bounds),
        angle matches Some(k) && -bounds.pi_8 <= k <= bounds.pi_8 ==> o
            == EdgeOrientation::Vertical,
        angle is None ==> o == EdgeOrientation::Broken,
{
    let p1 = bounds.pi_8 as i64;
    let p3 = bounds.three_pi_8 as i64;
    let p5 = bounds.five_pi_8 as i64;
    let p7 = bounds.seven_pi_8 as i64;
    let p = bounds.pi as i64;
    if in_range(angle, -p1, p1) {
        EdgeOrientation::Vertical
    } else if in_range(angle, p1, p3) {
        EdgeOrientation::NegDiagonal
    } else if in_range(angle, p3, p5) {
        EdgeOrientation::Horizontal
    } else if in_range(angle, p5, p7) {
        EdgeOrientation::PosDiagonal
    } else if in_range(angle, p7, p) || in_range(angle, -p, -p7) {
        EdgeOrientation::Vertical
    } else if in_range(angle, -p7, -p5) {
        EdgeOrientation::NegDiagonal
    } else if in_range(angle, -p5, -p3) {
        EdgeOrientation::Horizontal
    } else if in_range(angle, -p3, -p1) {
        EdgeOrientation::PosDiagonal
    } else {
        EdgeOrientation::Broken
    }
}

/// What non-maxima suppression makes of a pixel: on the image's border it is
/// not looked at; inside, it is kept where its gradient magnitude exceeds both
/// of its neighbours across the edge, and suppressed otherwise.
#[derive(Clone, Copy, PartialEq, Eq, Debug)]
pub enum SuppressionOutcome {
    Border,
    Suppressed,
    Kept,
}

/// An optional `usize` as an optional integer.
pub open spec fn opt_int(o: Option<usize>) -> Option<int> {
    match o {
        Some(x) => Some(x as int),
        None => None,
    }
}

/// `x` lies in the range of `i32`.
pub open spec fn fits_i32(x: int) -> bool {
    i32::MIN <= x <= i32::MAX
}

/// The row-major index `(col + dx) + (row + dy) * cols` of the pixel at
/// offset `d = (dx, dy)` from `(col, row)`, reckoned in `i32` (`col`, `row`
/// and `cols` cast to `i32`, as wrapping casts do): `None` where a step
/// leaves the range of `i32` or the index is negative.
pub open spec fn neighbour_index(col: int, row: int, cols: int, d: (i32, i32)) -> Option<int> {
    let x = (col as i32) + d.0;
    let y = (row as i32) + d.1;
    let p = y * (cols as i32);
    if fits_i32(x) && fits_i32(y) && fits_i32(p) && fits_i32(x + p) && x + p >= 0 {
        Some(x + p)
    } else {
        None
    }
}

/// The index `j` is that of a pixel of a list of `n`.
pub open spec fn index_in(j: Option<int>, n: nat) -> bool {
    match j {
        Some(k) => k < n,
        None => false,
    }
}

/// The pixel at `(col, row)` and both its neighbours across the edge lie in
/// the list of `n` pixels.
pub open spec fn pixel_readable(
    directions: Seq<EdgeOrientation>,
    n: nat,
    cols: int,
    row: int,
    col: int,
) -> bool {
    let i = col + row * cols;
    &&& i < n
    &&& index_in(neighbour_index(col, row, cols, first_neighbour(directions[i])), n)
    &&& index_in(neighbour_index(col, row, cols, second_neighbour(directions[i])), n)
}

/// Suppression over a `rows x cols` image read from a list of `n` pixels can
/// be carried out: the image has a row, and, where it has interior pixels,
/// a column, and every interior pixel and its neighbours lie in the list.
pub open spec fn suppression_defined(
    directions: Seq<EdgeOrientation>,
    n: nat,
    rows: int,
    cols: int,
) -> bool {
    &&& rows >= 1
    &&& rows >= 3 ==> cols >= 1
    &&& forall|row: int, col: int|
        1 <= row < rows - 1 && 1 <= col < cols - 1 ==> #[trigger] pixel_readable(
            directions,
            n,
            cols,
            row,
            col,
        )
}

/// The outcome of suppression at `(row, col)`.
pub open spec fn suppression_at(
    directions: Seq<EdgeOrientation>,
    magnitudes: Seq<Option<i32>>,
    rows: int,
    cols: int,
    row: int,
    col: int,
) -> SuppressionOutcome {
    if 1 <= row < rows - 1 && 1 <= col < cols - 1 {
        let i = col + row * cols;
        let j1 = neighbour_index(col, row, cols, first_neighbour(directions[i])).unwrap();
        let j2 = neighbour_index(col, row, cols, second_neighbour(directions[i])).unwrap();
        if key_gt(magnitudes[i], magnitudes[j1]) && key_gt(magnitudes[i], magnitudes[j2]) {
            SuppressionOutcome::Kept
        } else {
            SuppressionOutcome::Suppressed
        }
    } else {
        SuppressionOutcome::Border
    }
}

/// Non-maxima suppression leaves the border alone, and keeps an interior
/// pixel exactly where its gradient magnitude is a number strictly above the
/// magnitudes of both its neighbours across the edge; every other interior
/// pixel is suppressed.
pub proof fn lemma_suppression_keeps_only_maxima(
    directions: Seq<EdgeOrientation>,
    magnitudes: Seq<Option<i32>>,
    rows: int,
    cols: int,
    row: int,
    col: int,
)
    requires
        suppression_defined(directions, directions.len(), rows, cols),
        magnitudes.len() == directions.len(),
        0 <= row < rows,
        0 <= col < cols,
    ensures
        !(1 <= row < rows - 1 && 1 <= col < cols - 1) ==> suppression_at(
            directions,
            magnitudes,
            rows,
            cols,
            row,
            col,
        ) == SuppressionOutcome::Border,
        1 <= row < rows - 1 && 1 <= col < cols - 1 ==> {
            let i = col + row * cols;
            let j1 = neighbour_index(col, row, cols, first_neighbour(directions[i])).unwrap();
            let j2 = neighbour_index(col, row, cols, second_neighbour(directions[i])).unwrap();
            let outcome = suppression_at(directions, magnitudes, rows, cols, row, col);
            &&& 0 <= i < magnitudes.len()
            &&& 0 <= j1 < magnitudes.len()
            &&& 0 <= j2 < magnitudes.len()
            &&& outcome != SuppressionOutcome::Border
            &&& outcome == SuppressionOutcome::Kept <==> (magnitudes[i] is Some
                && magnitudes[j1] is Some && magnitudes[j2] is Some && magnitudes[i].unwrap()
                > magnitudes[j1].unwrap() && magnitudes[i].unwrap() > magnitudes[j2].unwrap())
        },
{
    if 1 <= row < rows - 1 && 1 <= col < cols - 1 {
        assert(pixel_readable(directions, directions.len(), cols, row, col));
        assert(0 <= col + row * cols) by (nonlinear_arith)
            requires
                0 <= row,
                0 <= col,
                0 <= cols,
        ;
    }
}

/// The index of the pixel at offset `d` from `(col, row)`; see `neighbour_index`.
fn neighbour_at(col: usize, row: usize, cols: usize, d: (i32, i32)) -> (j: Option<usize>)
    ensures
        opt_int(j) == neighbour_index(col as int, row as int, cols as int, d),
{
    let x = (col as i32).checked_add(d.0)?;
    let y = (row as i32).checked_add(d.1)?;
    let p = y.checked_mul(cols as i32)?;
    let s = x.checked_add(p)?;
    if s < 0 {
        None
    } else {
        Some(s as usize)
    }
}

/// Non-maxima suppression over a `rows x cols` image whose pixels, row after
/// row, have the edge directions `directions` and the gradient magnitudes of
/// order keys `magnitudes`.  Each interior pixel is compared with its two
/// neighbours across the edge; border pixels are left out.  `None` where a
/// pixel that has to be read lies outside the lists (or the image has no
/// row, or interior rows but no column).
pub fn non_maxima_suppression_outcomes(
    directions: &Vec<EdgeOrientation>,
    magnitudes: &Vec<Option<i32>>,
    rows: usize,
    cols: usize,
) -> (res: Option<Grid<SuppressionOutcome>>)
    requires
        directions.len() == magnitudes.len(),
        rows * cols <= isize::MAX,
    ensures
        res is Some <==> suppression_defined(directions@, directions@.len(), rows as int, cols as int),
        res matches Some(g) ==> {
            &&& g.nrows() == rows
            &&& g.ncols() == cols
            &&& forall|r: int, c: int|
                0 <= r < rows && 0 <= c < cols ==> #[trigger] g@[r][c] == suppression_at(
                    directions@,
                    magnitudes@,
                    rows as int,
                    cols as int,
                    r,
                    c,
                )
        },
{
    let n = directions.len();
    let mut outcomes = Grid::filled(rows, cols, SuppressionOutcome::Border);
    if rows == 0 {
        return None;
    }
    let mut row: usize = 1;
    while row + 1 < rows
        invariant
            1 <= row <= rows,
            row + 1 <= rows || rows <= 2,
            n == directions@.len(),
            n == magnitudes@.len(),
            rows * cols <= isize::MAX,
            row > 1 ==> cols >= 1,
            outcomes.nrows() == rows,
            outcomes.ncols() == cols,
            forall|r: int, c: int|
                1 <= r < row && 1 <= c < cols - 1 ==> #[trigger] pixel_readable(
                    directions@,
                    n as nat,
                    cols as int,
                    r,
                    c,
                ),
            forall|r: int, c: int|
                0 <= r < rows && 0 <= c < cols ==> #[trigger] outcomes@[r][c] == if r < row {
                    suppression_at(directions@, magnitudes@, rows as int, cols as int, r, c)
                } else {
                    SuppressionOutcome::Border
                },
        decreases rows - row,
    {
        if cols == 0 {
            return None;
        }
        let mut col: usize = 1;
        while col < cols - 1
            invariant
                1 <= row < rows - 1,
                1 <= col <= cols,
                n == directions@.len(),
                n == magnitudes@.len(),
                rows * cols <= isize::MAX,
                outcomes.nrows() == rows,
                outcomes.ncols() == cols,
                forall|r: int, c: int|
                    (1 <= r < row && 1 <= c < cols - 1) || (r == row && 1 <= c < col)
                        ==> #[trigger] pixel_readable(directions@, n as nat, cols as int, r, c),
                forall|r: int, c: int|
                    0 <= r < rows && 0 <= c < cols ==> #[trigger] outcomes@[r][c] == if r < row
                        || (r == row && c < col) {
                        suppression_at(directions@, magnitudes@, rows as int, cols as int, r, c)
                    } else {
                        SuppressionOutcome::Border
                    },
            decreases cols - col,
        {
            proof {
                lemma_flat_index_bound(row as int, col as int, rows as int, cols as int);
            }
            let i = col + row * cols;
            if i >= n {
                assert(!pixel_readable(directions@, n as nat, cols as int, row as int, col as int));
                return None;
            }
            let d = directions[i];
            let j1 = match neighbour_at(col, row, cols, first_neighbour_of(d)) {
                Some(j) => j,
                None => {
                    assert(!pixel_readable(directions@, n as nat, cols as int, row as int, col as int));
                    return None;
                },
            };
            if j1 >= n {
                assert(!pixel_readable(directions@, n as nat, cols as int, row as int, col as int));
                return None;
            }
            let j2 = match neighbour_at(col, row, cols, second_neighbour_of(d)) {
                Some(j) => j,
                None => {
                    assert(!pixel_readable(directions@, n as nat, cols as int, row as int, col as int));
                    return None;
                },
            };
            if j2 >= n {
                assert(!pixel_readable(directions@, n as nat, cols as int, row as int, col as int));
                return None;
            }
            let outcome = if greater(magnitudes[i], magnitudes[j1]) && greater(
                magnitudes[i],
                magnitudes[j2],
            ) {
                SuppressionOutcome::Kept
            } else {
                SuppressionOutcome::Suppressed
            };
            // The cells before this step, named so that the invariant is read on them.
            let ghost before = outcomes@;
            outcomes.set(row, col, outcome);
            assert forall|r: int, c: int| 0 <= r < rows && 0 <= c < cols implies #[trigger] outcomes@[r][c]
                == if r < row || (r == row && c < col + 1) {
                suppression_at(directions@, magnitudes@, rows as int, cols as int, r, c)
            } else {
                SuppressionOutcome::Border
            } by {
            }
            assert(pixel_readable(directions@, n as nat, cols as int, row as int, col as int));
            col = col + 1;
        }
        row = row + 1;
    }
    Some(outcomes)
}

/// The class that double thresholding gives a pixel.
#[derive(Clone, Copy, PartialEq, Eq, Debug)]
pub enum PixelStrength {
    Strong,
    Weak,
    NonEdge,
}

/// A pixel of order key `v` is strong where it reaches the high threshold,
/// weak where it reaches only the low one, and no edge otherwise.
pub open spec fn strength_of(v: Option<i32>, low: Option<i32>, high: Option<i32>) -> PixelStrength {
    if key_ge(v, high) {
        PixelStrength::Strong
    } else if key_ge(v, low) {
        PixelStrength::Weak
    } else {
        PixelStrength::NonEdge
    }
}

/// The order of the classes: no edge, weak, strong.
pub open spec fn strength_rank(s: PixelStrength) -> int {
    match s {
        PixelStrength::NonEdge => 0,
        PixelStrength::Weak => 1,
        PixelStrength::Strong => 2,
    }
}

/// A pixel is strong exactly where its value reaches the high threshold, weak
/// where it reaches the low one but not the high one, and no edge where it
/// reaches neither or is not a number.
pub proof fn lemma_strength_by_threshold(v: Option<i32>, low: i32, high: i32)
    ensures
        strength_of(v, Some(low), Some(high)) == PixelStrength::Strong <==> (v is Some
            && v.unwrap() >= high),
        strength_of(v, Some(low), Some(high)) == PixelStrength::Weak <==> (v is Some && low
            <= v.unwrap() && v.unwrap() < high),
        strength_of(v, Some(low), Some(high)) == PixelStrength::NonEdge <==> (v is None || (
        v.unwrap() < low && v.unwrap() < high)),
{
}

/// Double thresholding never ranks a pixel below a pixel of smaller value.
pub proof fn lemma_strength_monotone(a: i32, b: i32, low: Option<i32>, high: Option<i32>)
    requires
        a <= b,
    ensures
        strength_rank(strength_of(Some(a), low, high)) <= strength_rank(
            strength_of(Some(b), low, high),
        ),
{
}

/// Classifies every pixel of `image` (order keys of its values) against the
/// thresholds `low` and `high` (order keys too); see `strength_of`.
pub fn double_threshold_strengths(image: &Grid<Option<i32>>, low: Option<i32>, high: Option<i32>) -> (res: Grid<PixelStrength>)
    ensures
        res.nrows() == image.nrows(),
        res.ncols() == image.ncols(),
        forall|r: int, c: int|
            0 <= r < image.nrows() && 0 <= c < image.ncols() ==> #[trigger] res@[r][c]
                == strength_of(image@[r][c], low, high),
{
    let rows = image.rows();
    let cols = image.cols();
    let _ = image.size();
    let mut result = Grid::filled(rows, cols, PixelStrength::NonEdge);
    let mut r: usize = 0;
    while r < rows
        invariant
            r <= rows,
            rows == image.nrows(),
            cols == image.ncols(),
            result.nrows() == rows,
            result.ncols() == cols,
            forall|i: int, j: int|
                0 <= i < rows && 0 <= j < cols ==> #[trigger] result@[i][j] == if i < r {
                    strength_of(image@[i][j], low, high)
                } else {
                    PixelStrength::NonEdge
                },
        decreases rows - r,
    {
        let mut c: usize = 0;
        while c < cols
            invariant
                r < rows,
                c <= cols,
                rows == image.nrows(),
                cols == image.ncols(),
                result.nrows() == rows,
                result.ncols() == cols,
                forall|i: int, j: int|
                    0 <= i < rows && 0 <= j < cols ==> #[trigger] result@[i][j] == if i < r || (i
                        == r && j < c) {
                        strength_of(image@[i][j], low, high)
                    } else {
                        PixelStrength::NonEdge
                    },
            decreases cols - c,
        {
            let v = *image.get(r, c);
            let strength = if greater_or_equal(v, high) {
                PixelStrength::Strong
            } else if greater_or_equal(v, low) {
                PixelStrength::Weak
            } else {
                PixelStrength::NonEdge
            };
            // The cells before this step, named so that the invariant is read on them.
            let ghost before = result@;
            result.set(r, c, strength);
            assert forall|i: int, j: int| 0 <= i < rows && 0 <= j < cols implies #[trigger] result@[i][j]
                == if i < r || (i == r && j < c + 1) {
                strength_of(image@[i][j], low, high)
            } else {
                PixelStrength::NonEdge
            } by {
            }
            c = c + 1;
        }
        r = r + 1;
    }
    result
}

/// The offset of the first pixel across an edge of direction `o`.
fn first_neighbour_of(o: EdgeOrientation) -> (d: (i32, i32))
    ensures
        d == first_neighbour(o),
{
    match o {
        EdgeOrientation::Vertical => (1, 0),
        EdgeOrientation::NegDiagonal => (1, 1),
        EdgeOrientation::Horizontal => (0, 1),
        EdgeOrientation::PosDiagonal => (-1, 1),
        EdgeOrientation::Broken => (100, 100),
    }
}

/// The offset of the second pixel across an edge of direction `o`.
fn second_neighbour_of(o: EdgeOrientation) -> (d: (i32, i32))
    ensures
        d == second_neighbour(o),
{
    match o {
        EdgeOrientation::Vertical => (-1, 0),
        EdgeOrientation::NegDiagonal => (-1, -1),
        EdgeOrientation::Horizontal => (0, -1),
        EdgeOrientation::PosDiagonal => (1, -1),
        EdgeOrientation::Broken => (-100, -100),
    }
}

} // verus!

