use vstd::prelude::*;

use crate::grid::{Grid, lemma_grid_shape};
use crate::order_key::{greater, key_gt};

verus! {

broadcast use lemma_grid_shape;

/// How many times `b` occurs in `s`.
pub open spec fn count_of(s: Seq<usize>, b: int) -> nat
    decreases s.len(),
{
    if s.len() == 0 {
        0
    } else {
        count_of(s.drop_last(), b) + if s.last() == b {
            1nat
        } else {
            0nat
        }
    }
}

/// The sum of the entries of `h`.
pub open spec fn histogram_total(h: Seq<usize>) -> nat
    decreases h.len(),
{
    if h.len() == 0 {
        0
    } else {
        histogram_total(h.drop_last()) + h.last() as nat
    }
}

/// The number of items of `s` below `k`, bin by bin: `count_of(s, 0) + ... +
/// count_of(s, k - 1)`.
pub open spec fn counted_below(s: Seq<usize>, k: nat) -> nat
    decreases k,
{
    if k == 0 {
        0
    } else {
        counted_below(s, (k - 1) as nat) + count_of(s, k - 1)
    }
}

/// An item cannot occur more often than the sequence is long.
proof fn lemma_count_bound(s: Seq<usize>, b: int)
    ensures
        count_of(s, b) <= s.len(),
    decreases s.len(),
{
    if s.len() > 0 {
        lemma_count_bound(s.drop_last(), b);
    }
}

/// Appending `x` adds one to the count below `k` exactly where `x < k`.
proof fn lemma_counted_below_push(s: Seq<usize>, x: usize, k: nat)
    ensures
        counted_below(s.push(x), k) == counted_below(s, k) + if x < k {
            1nat
        } else {
            0nat
        },
    decreases k,
{
    assert(s.push(x).drop_last() =~= s);
    if k > 0 {
        lemma_counted_below_push(s, x, (k - 1) as nat);
    }
}

/// Where every item lies below `k`, the bins below `k` count them all.
proof fn lemma_counted_below_all(s: Seq<usize>, k: nat)
    requires
        forall|i: int| 0 <= i < s.len() ==> s[i] < k,
    ensures
        counted_below(s, k) == s.len(),
    decreases s.len(),
{
    if s.len() == 0 {
        assert(counted_below(s, k) == 0) by {
            lemma_counted_below_empty(s, k);
        }
    } else {
        lemma_counted_below_all(s.drop_last(), k);
        lemma_counted_below_push(s.drop_last(), s.last(), k);
        assert(s.drop_last().push(s.last()) =~= s);
    }
}

/// An empty sequence has nothing in any bin.
proof fn lemma_counted_below_empty(s: Seq<usize>, k: nat)
    requires
        s.len() == 0,
    ensures
        counted_below(s, k) == 0,
    decreases k,
{
    if k > 0 {
        lemma_counted_below_empty(s, (k - 1) as nat);
    }
}

/// The first `k` entries of a histogram sum to the count below `k`.
proof fn lemma_total_is_counted(h: Seq<usize>, s: Seq<usize>, k: nat)
    requires
        k <= h.len(),
        forall|b: int| 0 <= b < h.len() ==> h[b] == count_of(s, b),
    ensures
        histogram_total(h.take(k as int)) == counted_below(s, k),
    decreases k,
{
    if k > 0 {
        lemma_total_is_counted(h, s, (k - 1) as nat);
        assert(h.take(k as int).drop_last() =~= h.take(k - 1));
    }
}

/// The gray-level histogram of an image whose pixels have the levels
/// `levels`: 256 bins, bin `b` holding how many pixels have level `b`.
/// Every level lies below 256.
pub fn make_grayhistrogram(levels: &Vec<usize>) -> (histogram: Vec<usize>)
    requires
        forall|i: int| 0 <= i < levels.len() ==> levels[i] < 256,
    ensures
        histogram.len() == 256,
        forall|b: int| 0 <= b < 256 ==> #[trigger] histogram[b] == count_of(levels@, b),
        histogram_total(histogram@) == levels.len(),
{
    let mut histogram: Vec<usize> = Vec::new();
    let mut b: usize = 0;
    while b < 256
        invariant
            b <= 256,
            histogram.len() == b,
            forall|k: int| 0 <= k < b ==> histogram[k] == 0,
        decreases 256 - b,
    {
        histogram.push(0);
        b = b + 1;
    }
    let n = levels.len();
    let mut i: usize = 0;
    while i < n
        invariant
            i <= n,
            n == levels.len(),
            histogram.len() == 256,
            forall|k: int| 0 <= k < 256 ==> #[trigger] histogram[k] == count_of(
                levels@.take(i as int),
                k,
            ),
            forall|j: int| 0 <= j < levels.len() ==> levels[j] < 256,
        decreases n - i,
    {
        let level = levels[i];
        assert(levels@.take(i + 1).drop_last() =~= levels@.take(i as int));
        proof {
            lemma_count_bound(levels@.take(i as int), level as int);
        }
        let count = histogram[level];
        histogram.set(level, count + 1);
        i = i + 1;
    }
    assert(levels@.take(n as int) =~= levels@);
    proof {
        lemma_total_is_counted(histogram@, levels@, 256);
        assert(histogram@.take(256) =~= histogram@);
        lemma_counted_below_all(levels@, 256);
    }
    histogram
}

/// Splits `image` (order keys of its values) at `threshold`: a pixel is
/// light exactly where its value lies above the threshold.
pub fn above_threshold(image: &Grid<Option<i32>>, threshold: Option<i32>) -> (light: Grid<bool>)
    ensures
        light.nrows() == image.nrows(),
        light.ncols() == image.ncols(),
        forall|r: int, c: int|
            0 <= r < image.nrows() && 0 <= c < image.ncols() ==> #[trigger] light@[r][c]
                == key_gt(image@[r][c], threshold),
{
    let rows = image.rows();
    let cols = image.cols();
    let _ = image.size();
    let mut result = Grid::filled(rows, cols, false);
    let mut r: usize = 0;
    while r < rows
        invariant
            r <= rows,
            rows == image.nrows(),
            cols == image.ncols(),
            result.nrows() == rows,
            result.ncols() == cols,
            forall|i: int, j: int|
                0 <= i < rows && 0 <= j < cols ==> #[trigger] result@[i][j] == if i < r {
                    key_gt(image@[i][j], threshold)
                } else {
                    false
                },
        decreases rows - r,
    {
        let mut c: usize = 0;
        while c < cols
            invariant
                r < rows,
                c <= cols,
                rows == image.nrows(),
                cols == image.ncols(),
                result.nrows() == rows,
                result.ncols() == cols,
                forall|i: int, j: int|
                    0 <= i < rows && 0 <= j < cols ==> #[trigger] result@[i][j] == if i < r || (i
                        == r && j < c) {
                        key_gt(image@[i][j], threshold)
                    } else {
                        false
                    },
            decreases cols - c,
        {
            let v = *image.get(r, c);
            let is_light = greater(v, threshold);
            // The cells before this step, named so that the invariant is read on them.
            let ghost before = result@;
            result.set(r, c, is_light);
            assert forall|i: int, j: int| 0 <= i < rows && 0 <= j < cols implies #[trigger] result@[i][j]
                == if i < r || (i == r && j < c + 1) {
                key_gt(image@[i][j], threshold)
            } else {
                false
            } by {
            }
            c = c + 1;
        }
        r = r + 1;
    }
    result
}

} // verus!
