//! The data matrix: time-ordered rows of fixed-point observations, and the
//! sums of its columns over ranges of rows.

use vstd::prelude::*;

verus! {

/// A rectangular table of 32-bit observations, one row per point in time and
/// one column per feature, with the largest magnitude among them.
#[derive(Debug)]
pub struct Matrix {
    rows: Vec<Vec<i32>>,
    cols: usize,
    bound: u32,
}

/// The magnitude of an observation.
pub open spec fn magnitude_of_entry(value: i32) -> int {
    if value < 0 {
        -value
    } else {
        value as int
    }
}

/// Every observation of `x` has a magnitude of at most `bound`.
pub open spec fn bounded_by(x: Seq<Seq<i32>>, bound: int) -> bool {
    forall|i: int, j: int|
        0 <= i < x.len() && 0 <= j < x[i].len() ==> magnitude_of_entry(#[trigger] x[i][j])
            <= bound
}

/// `bound` is the largest magnitude of an observation of `x`, and zero
/// where `x` has no observation.
pub open spec fn largest_magnitude(x: Seq<Seq<i32>>, bound: int) -> bool {
    &&& bounded_by(x, bound)
    &&& bound == 0 || exists|i: int, j: int|
        0 <= i < x.len() && 0 <= j < x[i].len() && magnitude_of_entry(#[trigger] x[i][j])
            == bound
}

/// The sum of column `j` of `x` over the rows `lo..hi`.
pub open spec fn column_sum(x: Seq<Seq<i32>>, j: int, lo: int, hi: int) -> int
    decreases hi - lo,
{
    if hi <= lo {
        0
    } else {
        column_sum(x, j, lo, hi - 1) + x[hi - 1][j]
    }
}

/// Every row of `x` has `cols` entries.
pub open spec fn rectangular(x: Seq<Seq<i32>>, cols: int) -> bool {
    forall|i: int| 0 <= i < x.len() ==> (#[trigger] x[i]).len() == cols
}

/// A sum over `lo..hi` is the sum over `lo..mid` plus the sum over `mid..hi`.
pub proof fn lemma_column_sum_split(x: Seq<Seq<i32>>, j: int, lo: int, mid: int, hi: int)
    requires
        lo <= mid <= hi,
    ensures
        column_sum(x, j, lo, hi) == column_sum(x, j, lo, mid) + column_sum(x, j, mid, hi),
    decreases hi - mid,
{
    if mid < hi {
        lemma_column_sum_split(x, j, lo, mid, hi - 1);
    }
}

/// A sum of `hi - lo` observations is at most `hi - lo` times the largest
/// magnitude of an observation.
pub proof fn lemma_column_sum_bound(x: Seq<Seq<i32>>, j: int, lo: int, hi: int, bound: int)
    requires
        0 <= lo <= hi <= x.len(),
        0 <= j,
        forall|i: int| 0 <= i < x.len() ==> j < (#[trigger] x[i]).len(),
        bounded_by(x, bound),
    ensures
        -((hi - lo) * bound) <= column_sum(x, j, lo, hi) <= (hi - lo) * bound,
    decreases hi - lo,
{
    if lo < hi {
        lemma_column_sum_bound(x, j, lo, hi - 1, bound);
        assert(x[hi - 1].len() > j);
        assert(magnitude_of_entry(x[hi - 1][j]) <= bound);
        assert((hi - lo) * bound == (hi - 1 - lo) * bound + bound) by (nonlinear_arith);
    } else {
        assert((hi - lo) * bound == 0) by (nonlinear_arith)
            requires
                hi - lo == 0,
        ;
    }
}

/// The magnitude of an observation.
pub fn entry_magnitude(value: i32) -> (r: u32)
    ensures
        r == magnitude_of_entry(value),
{
    if value >= 0 {
        value as u32
    } else {
        let wide: i64 = -(value as i64);
        wide as u32
    }
}

impl Matrix {
    /// The rows of the matrix.
    pub closed spec fn view(&self) -> Seq<Seq<i32>> {
        Seq::new(self.rows@.len(), |i: int| self.rows@[i]@)
    }

    /// The number of columns.
    pub closed spec fn width(&self) -> nat {
        self.cols as nat
    }

    /// The largest magnitude of an observation, zero where there is none.
    pub closed spec fn magnitude(&self) -> nat {
        self.bound as nat
    }

    /// Every row has as many entries as the matrix has columns, and the
    /// largest magnitude is that of the observations.
    #[verifier::type_invariant]
    pub closed spec fn wf(&self) -> bool {
        &&& forall|i: int|
            0 <= i < self.rows@.len() ==> (#[trigger] self.rows@[i])@.len() == self.cols
        &&& largest_magnitude(self@, self.bound as int)
    }

    /// What well-formedness says of the view.
    pub proof fn lemma_wf_view(&self)
        requires
            self.wf(),
        ensures
            rectangular(self@, self.width() as int),
            largest_magnitude(self@, self.magnitude() as int),
    {
    }

    /// A matrix of `cols` columns from its rows; `None` when some row has
    /// another length.
    pub fn from_rows(rows: Vec<Vec<i32>>, cols: usize) -> (r: Option<Matrix>)
        ensures
            r.is_some() <==> (forall|i: int|
                0 <= i < rows@.len() ==> (#[trigger] rows@[i])@.len() == cols),
            r.is_some() ==> {
                let m = r.unwrap();
                &&& m.wf()
                &&& m.width() == cols
                &&& m@.len() == rows@.len()
                &&& forall|i: int| 0 <= i < rows@.len() ==> #[trigger] m@[i] == rows@[i]@
                &&& largest_magnitude(m@, m.magnitude() as int)
            },
    {
        let ghost x: Seq<Seq<i32>> = Seq::new(rows@.len(), |i: int| rows@[i]@);
        let mut bound: u32 = 0;
        let mut i: usize = 0;
        while i < rows.len()
            invariant
                i <= rows.len(),
                x == Seq::new(rows@.len(), |i: int| rows@[i]@),
                forall|k: int| 0 <= k < i ==> (#[trigger] rows@[k])@.len() == cols,
                forall|k: int, j: int|
                    0 <= k < i && 0 <= j < x[k].len() ==> magnitude_of_entry(#[trigger] x[k][j])
                        <= bound,
                bound == 0 || exists|k: int, j: int|
                    0 <= k < x.len() && 0 <= j < x[k].len() && magnitude_of_entry(
                        #[trigger] x[k][j],
                    ) == bound,
            decreases rows.len() - i,
        {
            if rows[i].len() != cols {
                return None;
            }
            let mut j: usize = 0;
            while j < cols
                invariant
                    j <= cols,
                    i < rows.len(),
                    rows@[i as int]@.len() == cols,
                    x == Seq::new(rows@.len(), |i: int| rows@[i]@),
                    forall|k: int, c: int|
                        0 <= k < i && 0 <= c < x[k].len() ==> magnitude_of_entry(
                            #[trigger] x[k][c],
                        ) <= bound,
                    forall|c: int|
                        0 <= c < j ==> magnitude_of_entry(#[trigger] x[i as int][c]) <= bound,
                    bound == 0 || exists|k: int, c: int|
                        0 <= k < x.len() && 0 <= c < x[k].len() && magnitude_of_entry(
                            #[trigger] x[k][c],
                        ) == bound,
                decreases cols - j,
            {
                let size: u32 = entry_magnitude(rows[i][j]);
                if size > bound {
                    bound = size;
                    assert(magnitude_of_entry(x[i as int][j as int]) == bound);
                }
                j += 1;
            }
            i += 1;
        }
        let m = Matrix { rows, cols, bound };
        assert(m@ =~= x);
        Some(m)
    }

    /// The number of rows.
    pub fn nrows(&self) -> (r: usize)
        ensures
            self.wf(),
            r == self@.len(),
    {
        proof {
            use_type_invariant(self);
        }
        self.rows.len()
    }

    /// The number of columns.
    pub fn ncols(&self) -> (r: usize)
        ensures
            self.wf(),
            r == self.width(),
    {
        proof {
            use_type_invariant(self);
        }
        self.cols
    }

    /// The largest magnitude of an observation, zero where there is none.
    pub fn max_abs(&self) -> (r: u32)
        ensures
            self.wf(),
            r == self.magnitude(),
    {
        proof {
            use_type_invariant(self);
        }
        self.bound
    }

    /// The observation in row `i` and column `j`.
    pub fn get(&self, i: usize, j: usize) -> (r: i32)
        requires
            i < self@.len(),
            j < self.width(),
        ensures
            r == self@[i as int][j as int],
    {
        proof {
            use_type_invariant(self);
        }
        self.rows[i][j]
    }
}

} // verus!
