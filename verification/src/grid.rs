use crate::errors::{ConfigError, IsinError};
use vstd::prelude::*;

verus! {

/// The number of bins in a grid whose rows hold these bin counts.
pub open spec fn sum_of(counts: Seq<usize>) -> int
    decreases counts.len(),
{
    if counts.len() == 0 {
        0
    } else {
        sum_of(counts.drop_last()) + counts.last()
    }
}

/// A prefix one longer adds exactly the next count to the sum.
proof fn lemma_sum_take_succ(counts: Seq<usize>, i: int)
    requires
        0 <= i < counts.len(),
    ensures
        sum_of(counts.take(i + 1)) == sum_of(counts.take(i)) + counts[i],
{
    assert(counts.take(i + 1).drop_last() =~= counts.take(i));
}

/// A longer prefix never sums to less: the counts are non-negative.
proof fn lemma_sum_take_mono(counts: Seq<usize>, i: int, j: int)
    requires
        0 <= i <= j <= counts.len(),
    ensures
        sum_of(counts.take(i)) <= sum_of(counts.take(j)),
    decreases j - i,
{
    if i < j {
        lemma_sum_take_mono(counts, i, j - 1);
        lemma_sum_take_succ(counts, j - 1);
    }
}

/// Bin counts a grid can be built from: at least one row, at least one bin
/// in every row, and a total that a `usize` can number.
pub open spec fn valid_counts(counts: Seq<usize>) -> bool {
    &&& counts.len() > 0
    &&& forall|i: int| 0 <= i < counts.len() ==> #[trigger] counts[i] >= 1
    &&& sum_of(counts) <= usize::MAX
}

/// The per-row geometry of an ISIN grid: for each latitude row, how many
/// bins it holds and the smallest (1-based) bin id belonging to it. Built
/// once from the per-row bin counts and never mutated; every query is a
/// read-only function of this table.
#[derive(Debug)]
pub struct GridTable {
    num_rows: usize,
    row_bin_count: Vec<usize>,
    row_base_bin: Vec<usize>,
    total_bins: usize,
}

impl GridTable {
    /// The bin count of each row, in row order.
    pub closed spec fn counts(&self) -> Seq<usize> {
        self.row_bin_count@
    }

    /// The smallest bin id of each row, in row order.
    pub closed spec fn bases(&self) -> Seq<usize> {
        self.row_base_bin@
    }

    /// How many latitude rows the grid has.
    pub closed spec fn rows(&self) -> int {
        self.num_rows as int
    }

    /// The largest bin id of the grid; ids run over `[1, total]`.
    pub closed spec fn total_spec(&self) -> usize {
        self.total_bins
    }

    /// Whether bin id `bin` belongs to row `row`.
    pub open spec fn row_contains(&self, row: int, bin: int) -> bool {
        &&& 0 <= row < self.rows()
        &&& self.bases()[row] <= bin < self.bases()[row] + self.counts()[row]
    }

    /// Whether some row of the grid holds bin id `bin`.
    pub open spec fn covered(&self, bin: int) -> bool {
        exists|row: int| self.row_contains(row, bin)
    }

    /// The shape every built table has: at least one row, a bin count of at
    /// least one per row, base bin ids starting at 1 and advancing by
    /// exactly the previous row's count, and a total equal to the last
    /// row's largest bin id.
    pub open spec fn well_formed(&self) -> bool {
        &&& self.rows() >= 1
        &&& self.counts().len() == self.rows()
        &&& self.bases().len() == self.rows()
        &&& forall|r: int| 0 <= r < self.rows() ==> #[trigger] self.counts()[r] >= 1
        &&& self.bases()[0] == 1
        &&& forall|r: int|
            1 <= r < self.rows() ==> #[trigger] self.bases()[r] == self.bases()[r - 1]
                + self.counts()[r - 1]
        &&& self.total_spec() == self.bases()[self.rows() - 1] + self.counts()[self.rows() - 1] - 1
    }

    /// How many latitude rows the grid has.
    pub fn num_rows(&self) -> (r: usize)
        ensures
            r == self.rows(),
    {
        self.num_rows
    }

    /// The largest bin id of the grid.
    pub fn total_bins(&self) -> (r: usize)
        ensures
            r == self.total_spec(),
    {
        self.total_bins
    }

    /// The number of bins in row `row`.
    pub fn bin_count(&self, row: usize) -> (r: usize)
        requires
            self.well_formed(),
            row < self.rows(),
        ensures
            r == self.counts()[row as int],
    {
        self.row_bin_count[row]
    }

    /// The smallest bin id belonging to row `row`.
    pub fn base_bin(&self, row: usize) -> (r: usize)
        requires
            self.well_formed(),
            row < self.rows(),
        ensures
            r == self.bases()[row as int],
    {
        self.row_base_bin[row]
    }

    /// Builds the table for a grid whose row `r` holds `counts[r]` bins.
    /// Bins are numbered 1-based, row-major and contiguously: row 0 starts
    /// at bin 1, and each later row starts right after the previous row's
    /// last bin, so the total bin count is the sum of the row counts.
    ///
    /// Fails closed, producing no partial table: with no rows at all, with
    /// a row of no bins, or with counts whose sum no `usize` can hold, the
    /// matching `ConfigError` comes back instead.
    pub fn build(counts: Vec<usize>) -> (r: Result<GridTable, ConfigError>)
        ensures
            match r {
                Ok(t) => {
                    &&& valid_counts(counts@)
                    &&& t.well_formed()
                    &&& t.counts() == counts@
                    &&& t.rows() == counts@.len()
                    &&& t.total_spec() == sum_of(counts@)
                    &&& forall|row: int|
                        0 <= row < counts@.len() ==> #[trigger] t.bases()[row] == 1 + sum_of(
                            counts@.take(row),
                        )
                },
                Err(e) => {
                    &&& !valid_counts(counts@)
                    &&& (e == ConfigError::NoRows <==> counts@.len() == 0)
                    &&& (e == ConfigError::EmptyRow <==> counts@.len() > 0 && (exists|i: int|
                        0 <= i < counts@.len() && #[trigger] counts@[i] == 0))
                    &&& (e == ConfigError::TooManyBins <==> counts@.len() > 0 && (forall|i: int|
                        0 <= i < counts@.len() ==> #[trigger] counts@[i] >= 1) && sum_of(counts@)
                        > usize::MAX)
                },
            },
    {
        let n: usize = counts.len();
        if n == 0 {
            return Err(ConfigError::NoRows);
        }
        let mut i: usize = 0;
        while i < n
            invariant
                n == counts@.len(),
                i <= n,
                forall|k: int| 0 <= k < i ==> #[trigger] counts@[k] >= 1,
            decreases n - i,
        {
            if counts[i] == 0 {
                return Err(ConfigError::EmptyRow);
            }
            i = i + 1;
        }
        let mut total: usize = 0;
        let mut i: usize = 0;
        while i < n
            invariant
                n == counts@.len(),
                i <= n,
                total == sum_of(counts@.take(i as int)),
                forall|k: int| 0 <= k < n ==> #[trigger] counts@[k] >= 1,
            decreases n - i,
        {
            let c = counts[i];
            proof {
                lemma_sum_take_succ(counts@, i as int);
            }
            if c > usize::MAX - total {
                proof {
                    lemma_sum_take_mono(counts@, i as int + 1, n as int);
                    assert(counts@.take(n as int) =~= counts@);
                }
                return Err(ConfigError::TooManyBins);
            }
            total = total + c;
            i = i + 1;
        }
        proof {
            assert(counts@.take(n as int) =~= counts@);
        }
        let mut bases: Vec<usize> = Vec::new();
        bases.push(1);
        let mut row: usize = 1;
        while row < n
            invariant
                n == counts@.len(),
                1 <= row <= n,
                bases@.len() == row,
                total == sum_of(counts@),
                forall|k: int| 0 <= k < n ==> #[trigger] counts@[k] >= 1,
                forall|k: int|
                    0 <= k < row ==> #[trigger] bases@[k] == 1 + sum_of(counts@.take(k)),
            decreases n - row,
        {
            let prev = bases[row - 1];
            let c = counts[row - 1];
            proof {
                lemma_sum_take_succ(counts@, row - 1);
                lemma_sum_take_mono(counts@, row as int, n as int - 1);
                lemma_sum_take_succ(counts@, n as int - 1);
                assert(counts@.take(n as int) =~= counts@);
            }
            let next = prev + c;
            bases.push(next);
            row = row + 1;
        }
        let table = GridTable {
            num_rows: n,
            row_bin_count: counts,
            row_base_bin: bases,
            total_bins: total,
        };
        proof {
            assert forall|r2: int| 1 <= r2 < n implies #[trigger] table.bases()[r2]
                == table.bases()[r2 - 1] + table.counts()[r2 - 1] by {
                lemma_sum_take_succ(counts@, r2 - 1);
            }
            lemma_sum_take_succ(counts@, n as int - 1);
            assert(counts@.take(n as int) =~= counts@);
        }
        Ok(table)
    }

    /// Walking from row `i` to row `j` only raises the base bin id, by at
    /// least the whole bin count of every row passed over.
    proof fn lemma_base_step(&self, i: int, j: int)
        requires
            self.well_formed(),
            0 <= i <= j < self.rows(),
        ensures
            self.bases()[i] <= self.bases()[j],
            i < j ==> self.bases()[i] + self.counts()[i] <= self.bases()[j],
        decreases j - i,
    {
        if i < j {
            self.lemma_base_step(i, j - 1);
        }
    }

    /// Every row's bin ids sit inside `[1, total]`.
    pub proof fn lemma_row_within_total(&self, r: int)
        requires
            self.well_formed(),
            0 <= r < self.rows(),
        ensures
            1 <= self.bases()[r],
            self.bases()[r] + self.counts()[r] - 1 <= self.total_spec(),
    {
        self.lemma_base_step(0, r);
        self.lemma_base_step(r, self.rows() - 1);
    }

    /// No bin id belongs to two rows: the base-bin table partitions the id
    /// space, so the row of a bin is uniquely determined. This is what
    /// makes the bin-to-row lookup deterministic.
    pub proof fn lemma_bin_row_unique(&self, bin: int, r1: int, r2: int)
        requires
            self.well_formed(),
            self.row_contains(r1, bin),
            self.row_contains(r2, bin),
        ensures
            r1 == r2,
    {
        if r1 < r2 {
            self.lemma_base_step(r1, r2);
        } else if r2 < r1 {
            self.lemma_base_step(r2, r1);
        }
    }

    /// Every bin id from `base` of row `r` up to `total` lies in some row
    /// at or after `r`.
    proof fn lemma_covered_from(&self, bin: int, r: int)
        requires
            self.well_formed(),
            0 <= r < self.rows(),
            self.bases()[r] <= bin <= self.total_spec(),
        ensures
            self.covered(bin),
        decreases self.rows() - r,
    {
        if bin < self.bases()[r] + self.counts()[r] {
            assert(self.row_contains(r, bin));
        } else {
            assert(r < self.rows() - 1) by {
                if r == self.rows() - 1 {
                    assert(bin >= self.bases()[r] + self.counts()[r] > self.total_spec());
                }
            }
            self.lemma_covered_from(bin, r + 1);
        }
    }

    /// The row holding bin id `bin`, by binary search for the largest base
    /// bin id not above `bin`. `bases` is strictly increasing, so this row
    /// is well defined (and unique, by `lemma_bin_row_unique`).
    fn find_row(&self, bin: usize) -> (row: usize)
        requires
            self.well_formed(),
            1 <= bin <= self.total_spec(),
        ensures
            self.row_contains(row as int, bin as int),
    {
        proof {
            self.lemma_row_partition();
        }
        let mut lo: usize = 0;
        let mut hi: usize = self.num_rows - 1;
        while lo != hi
            invariant
                self.well_formed(),
                1 <= bin <= self.total_spec(),
                lo <= hi < self.rows(),
                self.bases()[lo as int] <= bin,
                hi < self.rows() - 1 ==> bin < self.bases()[hi as int + 1],
                forall|i: int, j: int|
                    0 <= i < j < self.rows() ==> #[trigger] self.bases()[i]
                        < #[trigger] self.bases()[j],
            decreases hi - lo,
        {
            let mid = lo + (hi - lo + 1) / 2;
            if self.row_base_bin[mid] <= bin {
                lo = mid;
            } else {
                hi = mid - 1;
            }
        }
        lo
    }

    /// The zero-based row index holding bin id `bin`, or the range error
    /// naming the grid's largest bin id when `bin` lies outside
    /// `[1, total]`. Succeeds on exactly the ids inside that range.
    pub fn row_of_bin(&self, bin: usize) -> (res: Result<usize, IsinError>)
        requires
            self.well_formed(),
        ensures
            match res {
                Ok(row) => 1 <= bin <= self.total_spec() && self.row_contains(
                    row as int,
                    bin as int,
                ) && (forall|r: int| self.row_contains(r, bin as int) ==> r == row as int),
                Err(e) => !(1 <= bin <= self.total_spec()) && e == (IsinError::InvalidBinRange {
                    max_bin: self.total_spec(),
                }),
            },
    {
        if bin < 1 || bin > self.total_bins {
            return Err(IsinError::InvalidBinRange { max_bin: self.total_bins });
        }
        let row = self.find_row(bin);
        proof {
            assert forall|r: int| self.row_contains(r, bin as int) implies r == row as int by {
                self.lemma_bin_row_unique(bin as int, r, row as int);
            }
        }
        Ok(row)
    }

    /// Checks a whole batch of bin ids against `[1, total]`: succeeds
    /// exactly when every id is in range, and otherwise reports the range
    /// error naming the grid's largest bin id.
    pub fn validate_bins(&self, bins: &[usize]) -> (res: Result<(), IsinError>)
        requires
            self.well_formed(),
        ensures
            match res {
                Ok(_) => forall|i: int|
                    0 <= i < bins@.len() ==> 1 <= #[trigger] bins@[i] <= self.total_spec(),
                Err(e) => (exists|i: int|
                    0 <= i < bins@.len() && !(1 <= #[trigger] bins@[i] <= self.total_spec()))
                    && e == (IsinError::InvalidBinRange { max_bin: self.total_spec() }),
            },
    {
        let mut i: usize = 0;
        while i < bins.len()
            invariant
                self.well_formed(),
                i <= bins@.len(),
                forall|k: int| 0 <= k < i ==> 1 <= #[trigger] bins@[k] <= self.total_spec(),
            decreases bins@.len() - i,
        {
            let b = bins[i];
            if b < 1 || b > self.total_bins {
                return Err(IsinError::InvalidBinRange { max_bin: self.total_bins });
            }
            i = i + 1;
        }
        Ok(())
    }

    /// Locates a whole batch of bin ids at once, handing back for each its
    /// zero-based row index and its zero-based column within that row, in
    /// input order. Validates eagerly and fails closed: one id outside
    /// `[1, total]` rejects the entire call with the range error naming the
    /// grid's largest bin id, and no partial output is produced.
    pub fn locate_bins(&self, bins: &[usize]) -> (res: Result<Vec<(usize, usize)>, IsinError>)
        requires
            self.well_formed(),
        ensures
            match res {
                Ok(cells) => {
                    &&& forall|i: int|
                        0 <= i < bins@.len() ==> 1 <= #[trigger] bins@[i] <= self.total_spec()
                    &&& cells@.len() == bins@.len()
                    &&& forall|i: int|
                        0 <= i < bins@.len() ==> self.row_contains(
                            #[trigger] cells@[i].0 as int,
                            bins@[i] as int,
                        ) && cells@[i].1 == bins@[i] - self.bases()[cells@[i].0 as int]
                },
                Err(e) => (exists|i: int|
                    0 <= i < bins@.len() && !(1 <= #[trigger] bins@[i] <= self.total_spec()))
                    && e == (IsinError::InvalidBinRange { max_bin: self.total_spec() }),
            },
    {
        self.validate_bins(bins)?;
        let mut cells: Vec<(usize, usize)> = Vec::new();
        let mut i: usize = 0;
        while i < bins.len()
            invariant
                self.well_formed(),
                i <= bins@.len(),
                cells@.len() == i,
                forall|k: int|
                    0 <= k < bins@.len() ==> 1 <= #[trigger] bins@[k] <= self.total_spec(),
                forall|k: int|
                    0 <= k < i ==> self.row_contains(#[trigger] cells@[k].0 as int, bins@[k] as int)
                        && cells@[k].1 == bins@[k] - self.bases()[cells@[k].0 as int],
            decreases bins@.len() - i,
        {
            let b = bins[i];
            let row = self.find_row(b);
            let col = b - self.row_base_bin[row];
            cells.push((row, col));
            i = i + 1;
        }
        Ok(cells)
    }

    /// The bin id of column `col` in row `row`: the row's base bin id plus
    /// the column, with a column at or past the row's bin count clamped to
    /// the last column. The clamp absorbs rounding at the eastern edge of
    /// the longitude range, so the result always lands inside the row.
    pub fn bin_at(&self, row: usize, col: usize) -> (bin: usize)
        requires
            self.well_formed(),
            row < self.rows(),
        ensures
            bin == self.bases()[row as int] + (if col < self.counts()[row as int] {
                col as int
            } else {
                self.counts()[row as int] - 1
            }),
            self.row_contains(row as int, bin as int),
            1 <= bin <= self.total_spec(),
    {
        proof {
            self.lemma_row_within_total(row as int);
        }
        let count = self.row_bin_count[row];
        let c = if col >= count {
            count - 1
        } else {
            col
        };
        self.row_base_bin[row] + c
    }

    /// Round trip: the bin id of any in-range cell — `bases[row] + col`
    /// with `col` below the row's bin count, as `bin_at` computes it — is
    /// located back at exactly that row, and subtracting the row's base bin
    /// id recovers exactly that column, as `locate_bins` computes them. No
    /// information is lost between a cell and its bin id.
    pub proof fn lemma_cell_round_trip(&self, row: int, col: int, row2: int, col2: int)
        requires
            self.well_formed(),
            0 <= row < self.rows(),
            0 <= col < self.counts()[row],
            self.row_contains(row2, self.bases()[row] + col),
            col2 == self.bases()[row] + col - self.bases()[row2],
        ensures
            row2 == row,
            col2 == col,
    {
        self.lemma_bin_row_unique(self.bases()[row] + col, row, row2);
    }

    /// The row table partitions the bin id space: base bin ids start at 1,
    /// increase strictly, advance by exactly each row's bin count, and every
    /// id in `[1, total]` belongs to exactly one row — no gaps, no overlaps.
    pub proof fn lemma_row_partition(&self)
        requires
            self.well_formed(),
        ensures
            self.bases()[0] == 1,
            forall|i: int, j: int|
                0 <= i < j < self.rows() ==> #[trigger] self.bases()[i] < #[trigger] self.bases()[j],
            forall|r: int|
                0 <= r < self.rows() - 1 ==> #[trigger] self.bases()[r] + self.counts()[r]
                    == self.bases()[r + 1],
            forall|bin: int| 1 <= bin <= self.total_spec() ==> #[trigger] self.covered(bin),
            forall|bin: int, r1: int, r2: int|
                #[trigger] self.row_contains(r1, bin) && #[trigger] self.row_contains(r2, bin)
                    ==> r1 == r2,
    {
        assert forall|i: int, j: int| 0 <= i < j < self.rows() implies #[trigger] self.bases()[i]
            < #[trigger] self.bases()[j] by {
            self.lemma_base_step(i, j);
        }
        assert forall|bin: int| 1 <= bin <= self.total_spec() implies #[trigger] self.covered(
            bin,
        ) by {
            self.lemma_covered_from(bin, 0);
        }
        assert forall|bin: int, r1: int, r2: int|
            #[trigger] self.row_contains(r1, bin) && #[trigger] self.row_contains(
                r2,
                bin,
            ) implies r1 == r2 by {
            self.lemma_bin_row_unique(bin, r1, r2);
        }
    }
}

} // verus!
