//! The mean-shift gain: how much the sum of squares falls when the two sides
//! of a split get a mean of their own, computed from a table of prefix sums.

use crate::control::Control;
use crate::gain::{exceeds_level, gain_exceeds_level, Gain, GainResult};
use crate::matrix::{
    bounded_by, column_sum, lemma_column_sum_bound, lemma_column_sum_split, rectangular, Matrix,
};
use crate::ratio::{wide_product, Ratio};
use vstd::prelude::*;

verus! {

/// The mean-shift gain over a data matrix, with its table of prefix sums,
/// which is built once, when the gain is made.
pub struct ChangeInMean<'a> {
    x: &'a Matrix,
    x_cumsum: Vec<Vec<i64>>,
}

/// The fourth power of `n`.
pub open spec fn fourth_power(n: int) -> int {
    (n * n) * (n * n)
}

/// `value`, or one where `value` is less.
pub open spec fn at_least_one(value: int) -> int {
    if value < 1 {
        1
    } else {
        value
    }
}

/// The greatest product of the fourth power of the number of rows, the
/// square of the largest magnitude and the number of columns for which every
/// gain fits in 128 bits: two to the power 124.
pub const CAPACITY: u128 = 0x1000_0000_0000_0000_0000_0000_0000_0000;

/// Data of `rows` rows and `cols` columns, with observations of a magnitude
/// of at most `bound`, is small enough for every gain to fit in 128 bits.
pub open spec fn within_capacity(rows: int, cols: int, bound: int) -> bool {
    fourth_power(rows) * (at_least_one(bound) * at_least_one(bound)) * at_least_one(cols)
        <= CAPACITY
}

/// The rows of a table, each as a sequence.
pub open spec fn table_rows(table: Seq<Vec<i64>>) -> Seq<Seq<i64>> {
    Seq::new(table.len(), |i: int| table[i]@)
}

/// `table` holds the prefix sums of `x`: one row more than `x`, row `i` being
/// the column-wise sum of the first `i` rows of `x`.
pub open spec fn is_cumsum(x: Seq<Seq<i32>>, cols: int, table: Seq<Seq<i64>>) -> bool {
    &&& table.len() == x.len() + 1
    &&& forall|i: int| 0 <= i <= x.len() ==> (#[trigger] table[i]).len() == cols
    &&& forall|i: int, j: int|
        0 <= i <= x.len() && 0 <= j < cols ==> #[trigger] table[i][j] == column_sum(x, j, 0, i)
}

/// The contribution of feature `j` to the gain of splitting `start..stop` at
/// `split`, before squaring: a combination of three prefix sums.
pub open spec fn gain_term(x: Seq<Seq<i32>>, j: int, start: int, stop: int, split: int) -> int {
    (split - start) * column_sum(x, j, 0, stop) + (stop - split) * column_sum(x, j, 0, start) - (
    stop - start) * column_sum(x, j, 0, split)
}

/// The sum of the squared contributions of the first `cols` features.
pub open spec fn gain_numerator(
    x: Seq<Seq<i32>>,
    cols: int,
    start: int,
    stop: int,
    split: int,
) -> int
    decreases cols,
{
    if cols <= 0 {
        0
    } else {
        gain_numerator(x, cols - 1, start, stop, split) + gain_term(x, cols - 1, start, stop, split)
            * gain_term(x, cols - 1, start, stop, split)
    }
}

/// The normalisation of the gain: the lengths of the segment and of its two
/// sides, times the number of observations.
pub open spec fn gain_denominator(rows: int, start: int, stop: int, split: int) -> int {
    (stop - start) * (split - start) * (stop - split) * rows
}

/// The mean-shift gain of splitting `start..stop` at `split`: zero where one
/// side is empty, else the numerator over the denominator.
pub open spec fn mean_shift_gain(
    x: Seq<Seq<i32>>,
    cols: int,
    start: int,
    stop: int,
    split: int,
) -> Ratio {
    if split == start || split == stop {
        Ratio { num: 0, den: 1 }
    } else {
        Ratio {
            num: gain_numerator(x, cols, start, stop, split) as i128,
            den: gain_denominator(x.len() as int, start, stop, split) as u128,
        }
    }
}

/// The greatest magnitude of a product of two lengths and an observation:
/// the square of the number of rows times the largest magnitude.
pub open spec fn reach(rows: int, bound: int) -> int {
    (rows * rows) * at_least_one(bound)
}

/// What the capacity bound gives: the products below fit in 63 bits, and
/// the sum of their squares over the columns in 127.
proof fn lemma_capacity(rows: int, cols: int, bound: int)
    requires
        0 <= rows,
        0 <= cols,
        0 <= bound,
        within_capacity(rows, cols, bound),
    ensures
        0 <= reach(rows, bound) <= 0x4000_0000_0000_0000,
        0 <= rows * at_least_one(bound) <= 0x4000_0000_0000_0000,
        0 <= rows * rows <= 0x4000_0000_0000_0000,
        rows <= 0x8000_0000,
        0 <= fourth_power(rows) <= CAPACITY,
        0 <= reach(rows, bound) * reach(rows, bound) <= CAPACITY,
        0 <= cols * (reach(rows, bound) * reach(rows, bound)) <= CAPACITY,
{
    let q = fourth_power(rows);
    let r2 = rows * rows;
    let b = at_least_one(bound);
    let c = at_least_one(cols);
    let u = reach(rows, bound);
    assert(r2 >= 0 && q == r2 * r2 && q >= 0) by (nonlinear_arith)
        requires
            q == (rows * rows) * (rows * rows),
            r2 == rows * rows,
    ;
    assert(u * u == q * (b * b) && u >= r2 && u >= 0 && b * b >= 1) by (nonlinear_arith)
        requires
            u == r2 * b,
            q == r2 * r2,
            r2 >= 0,
            b >= 1,
    ;
    assert(q <= q * (b * b) && q * (b * b) <= q * (b * b) * c && cols * (q * (b * b)) <= q * (b
        * b) * c && 0 <= cols * (q * (b * b))) by (nonlinear_arith)
        requires
            q >= 0,
            b * b >= 1,
            c >= 1,
            0 <= cols <= c,
    ;
    if u > 0x4000_0000_0000_0000 {
        assert(u * u > 0x4000_0000_0000_0000 * 0x4000_0000_0000_0000) by (nonlinear_arith)
            requires
                u > 0x4000_0000_0000_0000,
        ;
    }
    assert(rows * b <= u && 0 <= rows * b) by (nonlinear_arith)
        requires
            u == (rows * rows) * b,
            rows >= 0,
            b >= 1,
    ;
    if rows > 0x8000_0000 {
        assert(rows * rows > 0x8000_0000 * 0x8000_0000) by (nonlinear_arith)
            requires
                rows > 0x8000_0000,
        ;
    }
}

/// A combination of three prefix sums stays within twice the reach, and
/// each of its products within the reach.
proof fn lemma_term_bound(rows: int, bound: int, s1: int, s2: int, a: int, b: int, c: int)
    requires
        0 <= s1,
        0 <= s2,
        s1 + s2 <= rows,
        0 <= bound,
        -(rows * bound) <= a <= rows * bound,
        -(rows * bound) <= b <= rows * bound,
        -(rows * bound) <= c <= rows * bound,
    ensures
        -reach(rows, bound) <= s1 * a <= reach(rows, bound),
        -reach(rows, bound) <= s2 * b <= reach(rows, bound),
        -reach(rows, bound) <= (s1 + s2) * c <= reach(rows, bound),
        -2 * reach(rows, bound) <= s1 * a + s2 * b - (s1 + s2) * c <= 2 * reach(rows, bound),
{
    let m = rows * bound;
    let s = s1 + s2;
    assert(-(s1 * m) <= s1 * a <= s1 * m) by (nonlinear_arith)
        requires
            0 <= s1,
            -m <= a <= m,
    ;
    assert(-(s2 * m) <= s2 * b <= s2 * m) by (nonlinear_arith)
        requires
            0 <= s2,
            -m <= b <= m,
    ;
    assert(-(s * m) <= s * c <= s * m) by (nonlinear_arith)
        requires
            0 <= s,
            -m <= c <= m,
    ;
    assert(s1 * m + s2 * m == s * m && s * m <= rows * m && s1 * m <= s * m && s2 * m <= s * m
        && rows * m == (rows * rows) * bound && (rows * rows) * bound <= (rows * rows)
        * at_least_one(bound)) by (nonlinear_arith)
        requires
            0 <= s1,
            0 <= s2,
            s == s1 + s2,
            s <= rows,
            m == rows * bound,
            0 <= bound <= at_least_one(bound),
    ;
    let top = reach(rows, bound);
    assert(top == (rows * rows) * at_least_one(bound));
    assert(s * m <= top);
    assert(s1 * a + s2 * b - s * c <= s1 * m + s2 * m + s * m);
    assert(s1 * a + s2 * b - s * c >= -(s1 * m) - s2 * m - s * m);
}

/// The square of a number within twice the reach is within four times the
/// square of the reach.
proof fn lemma_square_bound(reach: int, t: int)
    requires
        -2 * reach <= t <= 2 * reach,
    ensures
        0 <= t * t <= 4 * (reach * reach),
{
    assert(0 <= t * t <= (2 * reach) * (2 * reach) && (2 * reach) * (2 * reach) == 4 * (reach
        * reach)) by (nonlinear_arith)
        requires
            -2 * reach <= t <= 2 * reach,
    ;
}

/// The numerator of a gain is not negative.
pub proof fn lemma_numerator_nonnegative(
    x: Seq<Seq<i32>>,
    cols: int,
    start: int,
    stop: int,
    split: int,
)
    ensures
        gain_numerator(x, cols, start, stop, split) >= 0,
    decreases cols,
{
    if cols > 0 {
        lemma_numerator_nonnegative(x, cols - 1, start, stop, split);
        let t = gain_term(x, cols - 1, start, stop, split);
        assert(t * t >= 0) by (nonlinear_arith);
    }
}

/// The contribution of feature `j`, computed from the two sides of the
/// split themselves: the length of the left side times the sum of the right
/// side, less the length of the right side times the sum of the left side.
pub open spec fn segment_term(x: Seq<Seq<i32>>, j: int, start: int, stop: int, split: int) -> int {
    (split - start) * column_sum(x, j, split, stop) - (stop - split) * column_sum(
        x,
        j,
        start,
        split,
    )
}

/// The numerator of the gain, computed from the two sides of the split
/// themselves.
pub open spec fn segment_numerator(
    x: Seq<Seq<i32>>,
    cols: int,
    start: int,
    stop: int,
    split: int,
) -> int
    decreases cols,
{
    if cols <= 0 {
        0
    } else {
        segment_numerator(x, cols - 1, start, stop, split) + segment_term(
            x,
            cols - 1,
            start,
            stop,
            split,
        ) * segment_term(x, cols - 1, start, stop, split)
    }
}

/// The contribution of a feature, computed from the prefix sums, is the one
/// computed from the two sides of the split themselves.
pub proof fn lemma_gain_term_from_segments(
    x: Seq<Seq<i32>>,
    j: int,
    start: int,
    stop: int,
    split: int,
)
    requires
        0 <= start <= split <= stop,
    ensures
        gain_term(x, j, start, stop, split) == segment_term(x, j, start, stop, split),
{
    lemma_column_sum_split(x, j, 0, start, split);
    lemma_column_sum_split(x, j, 0, split, stop);
    let p0 = column_sum(x, j, 0, start);
    let left = column_sum(x, j, start, split);
    let right = column_sum(x, j, split, stop);
    let s1 = split - start;
    let s2 = stop - split;
    assert(s1 * (p0 + left + right) + s2 * p0 - (stop - start) * (p0 + left) == s1 * right - s2
        * left) by (nonlinear_arith)
        requires
            s1 == split - start,
            s2 == stop - split,
    ;
}

/// The gain computed from the table of prefix sums is the gain computed
/// from the rows of the segment themselves: the two have the same numerator,
/// and the denominator does not depend on the data.
pub proof fn lemma_gain_from_segments(
    x: Seq<Seq<i32>>,
    cols: int,
    start: int,
    stop: int,
    split: int,
)
    requires
        0 <= start <= split <= stop,
    ensures
        gain_numerator(x, cols, start, stop, split) == segment_numerator(
            x,
            cols,
            start,
            stop,
            split,
        ),
    decreases cols,
{
    if cols > 0 {
        lemma_gain_from_segments(x, cols - 1, start, stop, split);
        lemma_gain_term_from_segments(x, cols - 1, start, stop, split);
    }
}

/// Where one side of the split is empty, every contribution is zero, and so
/// is the numerator of the gain.
pub proof fn lemma_degenerate_numerator(
    x: Seq<Seq<i32>>,
    cols: int,
    start: int,
    stop: int,
    split: int,
)
    requires
        0 <= start <= stop,
        split == start || split == stop,
    ensures
        gain_numerator(x, cols, start, stop, split) == 0,
    decreases cols,
{
    if cols > 0 {
        lemma_degenerate_numerator(x, cols - 1, start, stop, split);
        lemma_gain_term_from_segments(x, cols - 1, start, stop, split);
        let t = gain_term(x, cols - 1, start, stop, split);
        assert(t == 0) by (nonlinear_arith)
            requires
                t == (split - start) * column_sum(x, cols - 1, split, stop) - (stop - split)
                    * column_sum(x, cols - 1, start, split),
                column_sum(x, cols - 1, split, stop) == 0 || split == start,
                column_sum(x, cols - 1, start, split) == 0 || split == stop,
                split == start || split == stop,
        ;
    }
}

/// The table of prefix sums of `matrix`: row `i` is the column-wise sum of
/// the first `i` rows, and row 0 is all zero.
fn prefix_sums(matrix: &Matrix) -> (r: Vec<Vec<i64>>)
    requires
        within_capacity(
            matrix@.len() as int,
            matrix.width() as int,
            matrix.magnitude() as int,
        ),
    ensures
        is_cumsum(matrix@, matrix.width() as int, table_rows(r@)),
        forall|j: int| 0 <= j < matrix.width() ==> #[trigger] table_rows(r@)[0][j] == 0,
{
    proof {
        use_type_invariant(matrix);
        matrix.lemma_wf_view();
    }
    let rows: usize = matrix.nrows();
    let cols: usize = matrix.ncols();
    let ghost x = matrix@;
    let ghost bound = matrix.magnitude() as int;
    proof {
        lemma_capacity(rows as int, cols as int, bound);
    }
    let mut first: Vec<i64> = Vec::new();
    let mut j: usize = 0;
    while j < cols
        invariant
            j <= cols,
            first@.len() == j,
            forall|k: int| 0 <= k < j ==> #[trigger] first@[k] == 0,
        decreases cols - j,
    {
        first.push(0);
        j += 1;
    }
    let mut table: Vec<Vec<i64>> = Vec::new();
    table.push(first);
    let mut i: usize = 0;
    while i < rows
        invariant
            i <= rows,
            rows == x.len(),
            0 <= bound,
            rows * at_least_one(bound) <= 0x4000_0000_0000_0000,
            bounded_by(x, bound),
            cols == matrix.width(),
            x == matrix@,
            x == matrix@,
            rectangular(x, cols as int),
            table@.len() == i + 1,
            forall|k: int| 0 <= k <= i ==> (#[trigger] table@[k])@.len() == cols,
            forall|k: int, c: int|
                0 <= k <= i && 0 <= c < cols ==> #[trigger] table@[k]@[c] == column_sum(
                    x,
                    c,
                    0,
                    k,
                ),
        decreases rows - i,
    {
        let mut next: Vec<i64> = Vec::new();
        let mut c: usize = 0;
        while c < cols
            invariant
                c <= cols,
                i < rows,
                rows == x.len(),
                0 <= bound,
                rows * at_least_one(bound) <= 0x4000_0000_0000_0000,
                bounded_by(x, bound),
                cols == matrix.width(),
                x == matrix@,
                rectangular(x, cols as int),
                table@.len() == i + 1,
                table@[i as int]@.len() == cols,
                forall|d: int|
                    0 <= d < cols ==> #[trigger] table@[i as int]@[d] == column_sum(
                        x,
                        d,
                        0,
                        i as int,
                    ),
                next@.len() == c,
                forall|d: int|
                    0 <= d < c ==> #[trigger] next@[d] == column_sum(x, d, 0, i + 1),
            decreases cols - c,
        {
            proof {
                assert(x[i as int].len() == cols);
                assert forall|k: int| 0 <= k < x.len() implies c < (#[trigger] x[k]).len() by {
                    assert(x[k].len() == cols);
                }
                lemma_column_sum_bound(x, c as int, 0, i as int, bound);
                lemma_column_sum_bound(x, c as int, 0, i + 1, bound);
                assert(i * bound <= rows * at_least_one(bound) && (i + 1) * bound <= rows
                    * at_least_one(bound)) by (nonlinear_arith)
                    requires
                        0 <= i,
                        i + 1 <= rows,
                        0 <= bound <= at_least_one(bound),
                ;
            }
            let above: i64 = table[i][c];
            let here: i64 = matrix.get(i, c) as i64;
            next.push(above + here);
            c += 1;
        }
        table.push(next);
        i += 1;
    }
    proof {
        let t = table_rows(table@);
        assert(t.len() == x.len() + 1);
        assert forall|k: int| 0 <= k <= x.len() implies (#[trigger] t[k]).len() == cols by {
            assert(table@[k]@.len() == cols);
        }
        assert forall|k: int, c: int| 0 <= k <= x.len() && 0 <= c < cols implies #[trigger] t[k][c]
            == column_sum(x, c, 0, k) by {
            assert(table@[k]@[c] == column_sum(x, c, 0, k));
        }
    }
    table
}

/// Two tables of prefix sums of the same data are equal.
pub proof fn lemma_cumsum_unique(
    x: Seq<Seq<i32>>,
    cols: int,
    first: Seq<Seq<i64>>,
    second: Seq<Seq<i64>>,
)
    requires
        is_cumsum(x, cols, first),
        is_cumsum(x, cols, second),
    ensures
        first == second,
{
    assert forall|i: int| 0 <= i < first.len() implies #[trigger] first[i] == second[i] by {
        assert(first[i].len() == cols);
        assert(second[i].len() == cols);
        assert forall|j: int| 0 <= j < cols implies #[trigger] first[i][j] == second[i][j] by {
            assert(first[i][j] == column_sum(x, j, 0, i));
            assert(second[i][j] == column_sum(x, j, 0, i));
        }
        assert(first[i] =~= second[i]);
    }
    assert(first =~= second);
}

impl<'a> ChangeInMean<'a> {
    /// The data matrix.
    pub closed spec fn data(&self) -> Seq<Seq<i32>> {
        self.x@
    }

    /// The number of features.
    pub closed spec fn features(&self) -> nat {
        self.x.width()
    }

    /// The table of prefix sums.
    pub closed spec fn cache(&self) -> Seq<Seq<i64>> {
        table_rows(self.x_cumsum@)
    }

    /// The largest magnitude of an observation.
    pub closed spec fn magnitude(&self) -> nat {
        self.x.magnitude()
    }

    /// The data is rectangular and within capacity, and the table of prefix
    /// sums is that of the data.
    pub open spec fn valid(&self) -> bool {
        &&& rectangular(self.data(), self.features() as int)
        &&& bounded_by(self.data(), self.magnitude() as int)
        &&& within_capacity(
            self.data().len() as int,
            self.features() as int,
            self.magnitude() as int,
        )
        &&& is_cumsum(self.data(), self.features() as int, self.cache())
    }

    /// Whether `x` is within the capacity of the gain.
    pub fn supports(x: &Matrix) -> (r: bool)
        ensures
            r == within_capacity(x@.len() as int, x.width() as int, x.magnitude() as int),
    {
        let rows: usize = x.nrows();
        let cols: usize = x.ncols();
        let bound: u32 = x.max_abs();
        let ghost b: int = at_least_one(bound as int);
        let ghost c: int = at_least_one(cols as int);
        let ghost q: int = fourth_power(rows as int);
        if rows > 0x8000_0000 {
            proof {
                if within_capacity(rows as int, cols as int, bound as int) {
                    lemma_capacity(rows as int, cols as int, bound as int);
                }
            }
            return false;
        }
        let r1: u128 = rows as u128;
        assert(r1 * r1 <= 0x8000_0000 * 0x8000_0000) by (nonlinear_arith)
            requires
                0 <= r1 <= 0x8000_0000,
        ;
        let r2: u128 = r1 * r1;
        assert(r2 * r2 <= 0x4000_0000_0000_0000 * 0x4000_0000_0000_0000) by (nonlinear_arith)
            requires
                0 <= r2 <= 0x4000_0000_0000_0000,
        ;
        let r4: u128 = r2 * r2;
        let b1: u128 = if bound < 1 {
            1
        } else {
            bound as u128
        };
        assert(b1 * b1 <= 0x1_0000_0000 * 0x1_0000_0000) by (nonlinear_arith)
            requires
                0 <= b1 <= 0x1_0000_0000,
        ;
        let b2: u128 = b1 * b1;
        let c1: u128 = if cols < 1 {
            1
        } else {
            cols as u128
        };
        let first = wide_product(r4, b2);
        assert(q * (b * b) * c >= q * (b * b)) by (nonlinear_arith)
            requires
                q * (b * b) >= 0,
                c >= 1,
        ;
        if first.0 > 0 || first.1 > CAPACITY {
            return false;
        }
        let second = wide_product(first.1, c1);
        second.0 == 0 && second.1 <= CAPACITY
    }

    /// A gain over `x`. The table of prefix sums is built here, once, and
    /// read by every query.
    pub fn new(x: &'a Matrix) -> (r: ChangeInMean<'a>)
        requires
            within_capacity(x@.len() as int, x.width() as int, x.magnitude() as int),
        ensures
            r.valid(),
            r.data() == x@,
            r.features() == x.width(),
            r.magnitude() == x.magnitude(),
    {
        proof {
            use_type_invariant(x);
            x.lemma_wf_view();
        }
        let x_cumsum = prefix_sums(x);
        ChangeInMean { x, x_cumsum }
    }

    /// The table of prefix sums of the data, computed afresh: row `i` is
    /// the column-wise sum of the first `i` rows, and row 0 is all zero. It
    /// equals the table that the gain holds.
    pub fn calculate_cumsum(&self) -> (r: Vec<Vec<i64>>)
        requires
            self.valid(),
        ensures
            is_cumsum(self.data(), self.features() as int, table_rows(r@)),
            forall|j: int| 0 <= j < self.features() ==> #[trigger] table_rows(r@)[0][j] == 0,
            table_rows(r@) == self.cache(),
    {
        let table = prefix_sums(self.x);
        proof {
            lemma_cumsum_unique(
                self.data(),
                self.features() as int,
                table_rows(table@),
                self.cache(),
            );
        }
        table
    }

    /// The table of prefix sums that the gain holds.
    pub fn get_cumsum(&self) -> (r: &Vec<Vec<i64>>)
        requires
            self.valid(),
        ensures
            table_rows(r@) == self.cache(),
            is_cumsum(self.data(), self.features() as int, table_rows(r@)),
    {
        &self.x_cumsum
    }

    /// The gain of a split with two sides that are not empty, from a table
    /// of prefix sums.
    fn gain_from_table(&self, table: &Vec<Vec<i64>>, start: usize, stop: usize, split: usize) -> (r:
        Ratio)
        requires
            self.valid(),
            is_cumsum(self.data(), self.features() as int, table_rows(table@)),
            start < split < stop <= self.data().len(),
        ensures
            r == mean_shift_gain(
                self.data(),
                self.features() as int,
                start as int,
                stop as int,
                split as int,
            ),
            r.num == gain_numerator(
                self.data(),
                self.features() as int,
                start as int,
                stop as int,
                split as int,
            ),
            r.den == gain_denominator(
                self.data().len() as int,
                start as int,
                stop as int,
                split as int,
            ),
            r.num >= 0,
            r.den > 0,
    {
        let rows: usize = self.x.nrows();
        let cols: usize = self.x.ncols();
        let ghost x = self.x@;
        let ghost bound = self.magnitude() as int;
        let ghost u = reach(rows as int, bound);
        let ghost w = 4 * (u * u);
        let s1: i128 = (split - start) as i128;
        let s2: i128 = (stop - split) as i128;
        let s: i128 = s1 + s2;
        proof {
            lemma_capacity(rows as int, cols as int, bound);
            assert(cols * w == 4 * (cols * (u * u))) by (nonlinear_arith)
                requires
                    w == 4 * (u * u),
            ;
            let t = table_rows(table@);
            assert(t[start as int] == table@[start as int]@);
            assert(t[split as int] == table@[split as int]@);
            assert(t[stop as int] == table@[stop as int]@);
            assert(t[start as int].len() == cols);
            assert(t[split as int].len() == cols);
            assert(t[stop as int].len() == cols);
        }
        let mut acc: i128 = 0;
        let mut j: usize = 0;
        while j < cols
            invariant
                j <= cols,
                rows == x.len(),
                cols == self.features(),
                x == self.data(),
                rectangular(x, cols as int),
                bounded_by(x, bound),
                0 <= bound,
                is_cumsum(x, cols as int, table_rows(table@)),
                table@[start as int]@.len() == cols,
                table@[split as int]@.len() == cols,
                table@[stop as int]@.len() == cols,
                start < split < stop <= rows,
                s1 == split - start,
                s2 == stop - split,
                s == stop - start,
                u == reach(rows as int, bound),
                0 <= u <= 0x4000_0000_0000_0000,
                w == 4 * (u * u),
                0 <= w,
                cols * w <= 4 * CAPACITY,
                acc == gain_numerator(x, j as int, start as int, stop as int, split as int),
                0 <= acc <= j * w,
            decreases cols - j,
        {
            let a: i128 = table[stop][j] as i128;
            let b: i128 = table[start][j] as i128;
            let c: i128 = table[split][j] as i128;
            proof {
                let t = table_rows(table@);
                assert(t[stop as int][j as int] == column_sum(x, j as int, 0, stop as int));
                assert(t[start as int][j as int] == column_sum(x, j as int, 0, start as int));
                assert(t[split as int][j as int] == column_sum(x, j as int, 0, split as int));
                assert forall|k: int| 0 <= k < x.len() implies j < (#[trigger] x[k]).len() by {
                    assert(x[k].len() == cols);
                }
                lemma_column_sum_bound(x, j as int, 0, stop as int, bound);
                lemma_column_sum_bound(x, j as int, 0, start as int, bound);
                lemma_column_sum_bound(x, j as int, 0, split as int, bound);
                assert(stop * bound <= rows * bound && start * bound <= rows * bound && split
                    * bound <= rows * bound) by (nonlinear_arith)
                    requires
                        start <= rows,
                        split <= rows,
                        stop <= rows,
                        0 <= bound,
                ;
                lemma_term_bound(
                    rows as int,
                    bound,
                    s1 as int,
                    s2 as int,
                    a as int,
                    b as int,
                    c as int,
                );
                lemma_square_bound(u, s1 * a + s2 * b - (s1 + s2) * c);
                assert((j + 1) * w == j * w + w && j * w + w <= cols * w) by (nonlinear_arith)
                    requires
                        j + 1 <= cols,
                        w >= 0,
                ;
            }
            let term: i128 = s1 * a + s2 * b - s * c;
            assert(term == gain_term(x, j as int, start as int, stop as int, split as int));
            let square: i128 = term * term;
            acc = acc + square;
            j += 1;
        }
        let n1: u128 = rows as u128;
        let u0: u128 = s as u128;
        let u1: u128 = s1 as u128;
        let u2: u128 = s2 as u128;
        assert(0 < u0 * u1 <= 0x8000_0000 * 0x8000_0000) by (nonlinear_arith)
            requires
                0 < u0 <= 0x8000_0000,
                0 < u1 <= 0x8000_0000,
        ;
        let d1: u128 = u0 * u1;
        assert(0 < d1 * u2 <= 0x8000_0000 * 0x8000_0000 * 0x8000_0000) by (nonlinear_arith)
            requires
                0 < d1 <= 0x8000_0000 * 0x8000_0000,
                0 < u2 <= 0x8000_0000,
        ;
        let d2: u128 = d1 * u2;
        assert(0 < d2 * n1 <= 0x8000_0000 * 0x8000_0000 * 0x8000_0000 * 0x8000_0000)
            by (nonlinear_arith)
            requires
                0 < d2 <= 0x8000_0000 * 0x8000_0000 * 0x8000_0000,
                0 < n1 <= 0x8000_0000,
        ;
        let den: u128 = d2 * n1;
        Ratio { num: acc, den }
    }
}

impl<'a> Gain for ChangeInMean<'a> {
    /// The data is rectangular and within capacity, and a table of prefix
    /// sums that has been built is that of the data.
    open spec fn wf(&self) -> bool {
        self.valid()
    }

    /// The number of rows of the data.
    open spec fn rows(&self) -> nat {
        self.data().len()
    }

    /// The one gain that the instance reports: the mean-shift gain.
    open spec fn admits(&self, start: int, stop: int, split: int, value: Ratio) -> bool {
        value == mean_shift_gain(self.data(), self.features() as int, start, stop, split)
    }

    /// A mean-shift gain carries no resampling evidence: a split is
    /// significant when its gain exceeds the significance level.
    open spec fn significant(&self, max_gain: Ratio, gain_result: GainResult, control: Control) -> bool {
        exceeds_level(max_gain, control.model_selection_alpha)
    }

    /// The one number that the instance reports: the number of rows of the
    /// data.
    open spec fn counts(&self, n: usize) -> bool {
        n == self.data().len()
    }

    /// The number of rows of the data.
    fn n(&self) -> (r: usize)
        ensures
            r == self.data().len(),
    {
        self.x.nrows()
    }

    fn is_significant(&self, max_gain: &Ratio, gain_result: &GainResult, control: &Control) -> (r:
        bool) {
        gain_exceeds_level(max_gain, &control.model_selection_alpha)
    }

    /// The mean-shift gain of splitting `start..stop` at `split`, read from
    /// the table of prefix sums in one pass over the features.
    fn gain(&self, start: usize, stop: usize, split: usize) -> (r: Ratio)
        ensures
            r == mean_shift_gain(
                self.data(),
                self.features() as int,
                start as int,
                stop as int,
                split as int,
            ),
            start < split < stop ==> r.num == gain_numerator(
                self.data(),
                self.features() as int,
                start as int,
                stop as int,
                split as int,
            ) && r.den == gain_denominator(
                self.data().len() as int,
                start as int,
                stop as int,
                split as int,
            ),
            r.num >= 0,
    {
        if start == split || split == stop {
            return Ratio::zero();
        }
        self.gain_from_table(&self.x_cumsum, start, stop, split)
    }
}

} // verus!
