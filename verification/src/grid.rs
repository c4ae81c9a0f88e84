use vstd::prelude::*;

verus! {

/// A dense two-dimensional array of `nrows() x ncols()` cells, stored row by row.
///
/// Cell `(r, c)` is addressed with `r` along the first axis (`0 <= r < nrows()`)
/// and `c` along the second axis (`0 <= c < ncols()`), as an `ndarray::Array2`
/// is indexed with `[(r, c)]`.  Its view is the sequence of its rows.
/// It stands for the `ndarray::Array2` of an image: that type cannot be
/// declared to Verus, and a name for its contents could not be generic in the
/// element type.
pub struct Grid<T> {
    rows: usize,
    cols: usize,
    data: Vec<T>,
}

/// `r * cols + c` lies inside a buffer of `rows * cols` cells.
pub proof fn lemma_flat_index_bound(r: int, c: int, rows: int, cols: int)
    requires
        0 <= r < rows,
        0 <= c < cols,
    ensures
        0 <= r * cols + c < rows * cols,
{
    assert(0 <= r * cols + c < rows * cols) by (nonlinear_arith)
        requires
            0 <= r < rows,
            0 <= c < cols,
    ;
}

/// Two distinct cells of a row-major buffer have distinct flat indices.
pub proof fn lemma_flat_index_injective(r1: int, c1: int, r2: int, c2: int, cols: int)
    requires
        0 <= r1,
        0 <= r2,
        0 <= c1 < cols,
        0 <= c2 < cols,
        r1 * cols + c1 == r2 * cols + c2,
    ensures
        r1 == r2,
        c1 == c2,
{
    if r1 < r2 {
        assert(r1 * cols + c1 < r2 * cols + c2) by (nonlinear_arith)
            requires
                r1 < r2,
                0 <= c1 < cols,
                0 <= c2,
        ;
    } else if r2 < r1 {
        assert(r2 * cols + c2 < r1 * cols + c1) by (nonlinear_arith)
            requires
                r2 < r1,
                0 <= c2 < cols,
                0 <= c1,
        ;
    }
}

/// A sequence of `rows` rows, each holding `cols` cells.
pub open spec fn has_shape<T>(s: Seq<Seq<T>>, rows: nat, cols: nat) -> bool {
    &&& s.len() == rows
    &&& forall|r: int| 0 <= r < rows ==> #[trigger] s[r].len() == cols
}

/// The grid of `rows x cols` cells that all hold `value`.
pub open spec fn constant_grid<T>(rows: nat, cols: nat, value: T) -> Seq<Seq<T>> {
    Seq::new(rows, |r: int| Seq::new(cols, |c: int| value))
}

impl<T> Grid<T> {
    #[verifier::type_invariant]
    spec fn inv(self) -> bool {
        self.data@.len() == self.rows * self.cols
    }

    /// Length of the first axis.
    pub closed spec fn nrows(self) -> nat {
        self.rows as nat
    }

    /// Length of the second axis.
    pub closed spec fn ncols(self) -> nat {
        self.cols as nat
    }

    /// The rows of the grid, each a sequence of `ncols()` cells.
    pub closed spec fn cells(self) -> Seq<Seq<T>> {
        Seq::new(
            self.rows as nat,
            |r: int| Seq::new(self.cols as nat, |c: int| self.data@[r * self.cols + c]),
        )
    }

    /// The grid of `rows x cols` cells, all equal to `value`.
    pub fn filled(rows: usize, cols: usize, value: T) -> (g: Grid<T>)
        where T: Copy
        requires
            rows * cols <= usize::MAX,
        ensures
            g.nrows() == rows,
            g.ncols() == cols,
            g.cells() == constant_grid(rows as nat, cols as nat, value),
    {
        let n: usize = rows * cols;
        let mut data: Vec<T> = Vec::new();
        let mut i: usize = 0;
        while i < n
            invariant
                i <= n,
                data@.len() == i,
                forall|k: int| 0 <= k < i ==> data@[k] == value,
            decreases n - i,
        {
            data.push(value);
            i = i + 1;
        }
        let g = Grid { rows, cols, data };
        assert(g.cells() =~= constant_grid(rows as nat, cols as nat, value)) by {
            assert forall|r: int| 0 <= r < rows implies g.cells()[r] =~= constant_grid(
                rows as nat,
                cols as nat,
                value,
            )[r] by {
                assert forall|c: int| 0 <= c < cols implies g.cells()[r][c] == value by {
                    lemma_flat_index_bound(r, c, rows as int, cols as int);
                }
            }
        }
        g
    }

    /// The grid of `rows x cols` cells whose cells, row after row, are `data`;
    /// `None` where `data` does not hold exactly `rows * cols` cells.
    pub fn from_vec(rows: usize, cols: usize, data: Vec<T>) -> (res: Option<Grid<T>>)
        ensures
            res is Some <==> data@.len() == rows * cols,
            res matches Some(g) ==> {
                &&& g.nrows() == rows
                &&& g.ncols() == cols
                &&& forall|r: int, c: int|
                    0 <= r < rows && 0 <= c < cols ==> #[trigger] g.cells()[r][c] == data@[r
                        * cols + c]
            },
    {
        let len = data.len();
        match rows.checked_mul(cols) {
            Some(n) => {
                if len == n {
                    Some(Grid { rows, cols, data })
                } else {
                    None
                }
            },
            None => None,
        }
    }

    /// Length of the first axis.
    pub fn rows(&self) -> (n: usize)
        ensures
            n == self.nrows(),
    {
        self.rows
    }

    /// Length of the second axis.
    pub fn cols(&self) -> (n: usize)
        ensures
            n == self.ncols(),
    {
        self.cols
    }

    /// The number of cells, `nrows() * ncols()`.
    pub fn size(&self) -> (n: usize)
        ensures
            n == self.nrows() * self.ncols(),
    {
        proof {
            use_type_invariant(self);
        }
        self.data.len()
    }

    /// The cell at `(r, c)`.
    pub fn get(&self, r: usize, c: usize) -> (v: &T)
        requires
            r < self.nrows(),
            c < self.ncols(),
        ensures
            *v == self.cells()[r as int][c as int],
    {
        let len = self.data.len();
        proof {
            use_type_invariant(self);
            lemma_flat_index_bound(r as int, c as int, self.rows as int, self.cols as int);
            assert(r * self.cols + c < len);
        }
        &self.data[r * self.cols + c]
    }

    /// Overwrites the cell at `(r, c)` with `value`.
    pub fn set(&mut self, r: usize, c: usize, value: T)
        requires
            r < old(self).nrows(),
            c < old(self).ncols(),
        ensures
            final(self).nrows() == old(self).nrows(),
            final(self).ncols() == old(self).ncols(),
            final(self).cells() == old(self).cells().update(
                r as int,
                old(self).cells()[r as int].update(c as int, value),
            ),
    {
        let len = self.data.len();
        proof {
            use_type_invariant(&*self);
            lemma_flat_index_bound(r as int, c as int, self.rows as int, self.cols as int);
            assert(r * self.cols + c < len);
        }
        let ghost before = self.cells();
        let i = r * self.cols + c;
        let mut taken = Grid { rows: 0, cols: 0, data: Vec::new() };
        std::mem::swap(self, &mut taken);
        let Grid { rows, cols, mut data } = taken;
        data.set(i, value);
        *self = Grid { rows, cols, data };
        proof {
            let after = self.cells();
            let expect = before.update(r as int, before[r as int].update(c as int, value));
            assert forall|r2: int| 0 <= r2 < rows implies after[r2] =~= expect[r2] by {
                assert forall|c2: int| 0 <= c2 < cols implies after[r2][c2]
                    == expect[r2][c2] by {
                    lemma_flat_index_bound(r2, c2, rows as int, cols as int);
                    if r2 != r || c2 != c {
                        if r2 * self.cols + c2 == i {
                            lemma_flat_index_injective(
                                r2,
                                c2,
                                r as int,
                                c as int,
                                self.cols as int,
                            );
                        }
                    }
                }
            }
            assert(after =~= expect);
        }
    }

    /// Exchanges the cells at `(r1, c1)` and `(r2, c2)`.
    pub fn swap(&mut self, r1: usize, c1: usize, r2: usize, c2: usize)
        where T: Copy
        requires
            r1 < old(self).nrows(),
            c1 < old(self).ncols(),
            r2 < old(self).nrows(),
            c2 < old(self).ncols(),
        ensures
            final(self).nrows() == old(self).nrows(),
            final(self).ncols() == old(self).ncols(),
            forall|r: int, c: int|
                0 <= r < old(self).nrows() && 0 <= c < old(self).ncols()
                    ==> #[trigger] final(self).cells()[r][c] == if r == r1 && c == c1 {
                    old(self).cells()[r2 as int][c2 as int]
                } else if r == r2 && c == c2 {
                    old(self).cells()[r1 as int][c1 as int]
                } else {
                    old(self).cells()[r][c]
                },
    {
        let a = *self.get(r1, c1);
        let b = *self.get(r2, c2);
        self.set(r1, c1, b);
        self.set(r2, c2, a);
    }
}

/// The view of a grid always has `nrows()` rows of `ncols()` cells each.
pub broadcast proof fn lemma_grid_shape<T>(g: Grid<T>)
    ensures
        has_shape(#[trigger] g.cells(), g.nrows(), g.ncols()),
{
}

impl<T> View for Grid<T> {
    type V = Seq<Seq<T>>;

    open spec fn view(&self) -> Seq<Seq<T>> {
        self.cells()
    }
}

} // verus!
