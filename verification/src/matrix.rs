//! A dense matrix: one contiguous buffer in row-major order and two counts.
use crate::error::RegressionError;
use crate::scalar::Scalar;
use crate::vector::{dot, lemma_sum_of_push, products, sum_of};
use vstd::prelude::*;

verus! {

/// A `rows` by `cols` table of numbers. The cell in row `i` and column `j` is
/// the entry `i * cols + j` of the buffer, and the buffer holds exactly
/// `rows * cols` entries.
pub struct Matrix<T> {
    rows: usize,
    cols: usize,
    data: Vec<T>,
}

/// The place of a cell in a row-major buffer lies inside the buffer.
pub proof fn lemma_cell_in_buffer(i: int, j: int, rows: int, cols: int)
    by (nonlinear_arith)
    requires
        0 <= i < rows,
        0 <= j < cols,
    ensures
        0 <= i * cols + j < rows * cols,
        i * cols + cols <= rows * cols,
{
}

impl<T> Matrix<T> {
    /// The buffer holds one entry for each cell.
    #[verifier::type_invariant]
    spec fn well_formed(self) -> bool {
        self.data.len() == self.rows * self.cols
    }

    /// The number of rows.
    pub closed spec fn spec_nrows(&self) -> usize {
        self.rows
    }

    /// The number of columns.
    pub closed spec fn spec_ncols(&self) -> usize {
        self.cols
    }

    /// The cell in row `i` and column `j`.
    pub closed spec fn at(self, i: int, j: int) -> T {
        self.data@[i * self.cols + j]
    }

    /// Row `i`, from its first column to its last.
    pub open spec fn row(self, i: int) -> Seq<T> {
        Seq::new(self.ncols() as nat, |j: int| self.at(i, j))
    }

    /// Column `j`, from its first row to its last.
    pub open spec fn column(self, j: int) -> Seq<T> {
        Seq::new(self.nrows() as nat, |i: int| self.at(i, j))
    }

    /// The number of rows.
    #[verifier::when_used_as_spec(spec_nrows)]
    pub fn nrows(&self) -> (r: usize)
        ensures
            r == self.nrows(),
    {
        self.rows
    }

    /// The number of columns.
    #[verifier::when_used_as_spec(spec_ncols)]
    pub fn ncols(&self) -> (r: usize)
        ensures
            r == self.ncols(),
    {
        self.cols
    }
}

impl<T> View for Matrix<T> {
    type V = Seq<Seq<T>>;

    /// The rows, from the first to the last.
    open spec fn view(&self) -> Seq<Seq<T>> {
        Seq::new(self.nrows() as nat, |i: int| self.row(i))
    }
}

impl<T: Copy> Matrix<T> {
    /// Lays the rows of a rectangular table out in one buffer.
    pub(crate) fn flatten(records: &Vec<Vec<T>>, cols: usize) -> (m: Matrix<T>)
        requires
            forall|i: int| 0 <= i < records.len() ==> (#[trigger] records[i]).len() == cols,
        ensures
            m.nrows() == records.len(),
            m.ncols() == cols,
            forall|i: int, j: int|
                0 <= i < records.len() && 0 <= j < cols ==> #[trigger] m.at(i, j) == records[i][j],
    {
        let mut data: Vec<T> = Vec::new();
        let mut i: usize = 0;
        while i < records.len()
            invariant
                i <= records.len(),
                forall|k: int| 0 <= k < records.len() ==> (#[trigger] records[k]).len() == cols,
                data.len() == i * cols,
                forall|a: int, b: int|
                    0 <= a < i && 0 <= b < cols ==> data@[a * cols + b] == #[trigger] records[a][b],
            decreases records.len() - i,
        {
            let record = &records[i];
            let mut j: usize = 0;
            while j < cols
                invariant
                    i < records.len(),
                    j <= cols,
                    record == records[i as int],
                    record.len() == cols,
                    data.len() == i * cols + j,
                    forall|a: int, b: int|
                        0 <= a < i && 0 <= b < cols ==> data@[a * cols + b]
                            == #[trigger] records[a][b],
                    forall|b: int| 0 <= b < j ==> data@[i * cols + b] == #[trigger] record[b],
                decreases cols - j,
            {
                let ghost before = data@;
                data.push(record[j]);
                proof {
                    assert forall|a: int, b: int| 0 <= a < i && 0 <= b < cols implies data@[a
                        * cols + b] == #[trigger] records[a][b] by {
                        lemma_cell_in_buffer(a, b, i as int, cols as int);
                        assert(data@[a * cols + b] == before[a * cols + b]);
                    }
                }
                j = j + 1;
            }
            proof {
                assert((i + 1) * cols == i * cols + cols) by (nonlinear_arith);
            }
            i = i + 1;
        }
        let rows = records.len();
        let m = Matrix { rows, cols, data };
        assert forall|a: int, b: int| 0 <= a < records.len() && 0 <= b < cols implies #[trigger] m.at(
            a,
            b,
        ) == records[a][b] by {
            assert(m.data@[a * cols + b] == records[a][b]);
        }
        m
    }

    /// The cell in row `i` and column `j`, for a place inside the matrix.
    pub(crate) fn cell(&self, i: usize, j: usize) -> (r: T)
        requires
            i < self.nrows(),
            j < self.ncols(),
        ensures
            r == self.at(i as int, j as int),
    {
        proof {
            use_type_invariant(self);
            lemma_cell_in_buffer(i as int, j as int, self.rows as int, self.cols as int);
        }
        self.data[i * self.cols + j]
    }
}

/// Whether every row of `records` is as long as the first one.
pub open spec fn rectangular<T>(records: Seq<Vec<T>>) -> bool {
    forall|i: int| 0 <= i < records.len() ==> (#[trigger] records[i]).len() == records[0].len()
}

/// The length of the first row of `records`; zero where there is no row.
pub open spec fn width_of<T>(records: Seq<Vec<T>>) -> nat {
    if records.len() == 0 {
        0
    } else {
        records[0].len() as nat
    }
}

impl<T: Copy> Matrix<T> {
    /// Builds a matrix from a row-major buffer. The buffer has to hold
    /// exactly `rows * cols` entries.
    pub fn from_row_major(rows: usize, cols: usize, data: Vec<T>) -> (r: Result<
        Matrix<T>,
        RegressionError,
    >)
        ensures
            match r {
                Ok(m) => {
                    &&& data.len() == rows * cols
                    &&& m.nrows() == rows
                    &&& m.ncols() == cols
                    &&& forall|i: int, j: int|
                        0 <= i < rows && 0 <= j < cols ==> #[trigger] m.at(i, j) == data@[i * cols
                            + j]
                },
                Err(e) => e == RegressionError::DimensionMismatch && data.len() != rows * cols,
            },
    {
        match rows.checked_mul(cols) {
            Some(n) => {
                if n == data.len() {
                    Ok(Matrix { rows, cols, data })
                } else {
                    Err(RegressionError::DimensionMismatch)
                }
            },
            None => Err(RegressionError::DimensionMismatch),
        }
    }

    /// Builds a matrix from rows. The first row fixes the number of columns,
    /// and every later row has to have as many.
    pub fn from_records(records: &Vec<Vec<T>>) -> (r: Result<Matrix<T>, RegressionError>)
        ensures
            match r {
                Ok(m) => {
                    &&& rectangular(records@)
                    &&& m.nrows() == records.len()
                    &&& m.ncols() == width_of(records@)
                    &&& forall|i: int, j: int|
                        0 <= i < records.len() && 0 <= j < width_of(records@) ==> #[trigger] m.at(
                            i,
                            j,
                        ) == records[i][j]
                },
                Err(e) => e == RegressionError::DimensionMismatch && !rectangular(records@),
            },
    {
        if records.len() == 0 {
            return Ok(Matrix::flatten(records, 0));
        }
        let cols = records[0].len();
        let mut i: usize = 0;
        while i < records.len()
            invariant
                i <= records.len(),
                records.len() > 0,
                cols == records[0].len(),
                forall|k: int| 0 <= k < i ==> (#[trigger] records[k]).len() == cols,
            decreases records.len() - i,
        {
            if records[i].len() != cols {
                return Err(RegressionError::DimensionMismatch);
            }
            i = i + 1;
        }
        Ok(Matrix::flatten(records, cols))
    }

    /// The cell in row `i` and column `j`, or `None` outside the matrix.
    pub fn get(&self, i: usize, j: usize) -> (r: Option<T>)
        ensures
            r == if i < self.nrows() && j < self.ncols() {
                Some(self.at(i as int, j as int))
            } else {
                None
            },
    {
        if i < self.rows && j < self.cols {
            Some(self.cell(i, j))
        } else {
            None
        }
    }

    /// The matrix with rows and columns exchanged.
    pub fn transpose(&self) -> (t: Matrix<T>)
        ensures
            t.nrows() == self.ncols(),
            t.ncols() == self.nrows(),
            forall|i: int, j: int|
                0 <= i < self.nrows() && 0 <= j < self.ncols() ==> #[trigger] t.at(j, i)
                    == self.at(i, j),
    {
        let mut records: Vec<Vec<T>> = Vec::new();
        let mut j: usize = 0;
        while j < self.cols
            invariant
                j <= self.ncols(),
                records.len() == j,
                forall|b: int| 0 <= b < j ==> (#[trigger] records[b]).len() == self.nrows(),
                forall|b: int, a: int|
                    0 <= b < j && 0 <= a < self.nrows() ==> #[trigger] records[b][a] == self.at(
                        a,
                        b,
                    ),
            decreases self.ncols() - j,
        {
            let mut line: Vec<T> = Vec::new();
            let mut i: usize = 0;
            while i < self.rows
                invariant
                    j < self.ncols(),
                    i <= self.nrows(),
                    line.len() == i,
                    forall|a: int| 0 <= a < i ==> #[trigger] line[a] == self.at(a, j as int),
                decreases self.nrows() - i,
            {
                line.push(self.cell(i, j));
                i = i + 1;
            }
            records.push(line);
            j = j + 1;
        }
        Matrix::flatten(&records, self.rows)
    }
}

impl<T: Scalar> Matrix<T> {
    /// The product of the matrix with a column vector: entry `i` is the dot
    /// product of row `i` with `v`.
    pub open spec fn times(self, v: Seq<T>) -> Seq<T> {
        Seq::new(self.nrows() as nat, |i: int| dot(self.row(i), v))
    }

    /// The product of the transposed matrix with a column vector: entry `j`
    /// is the dot product of column `j` with `v`.
    pub open spec fn transpose_times(self, v: Seq<T>) -> Seq<T> {
        Seq::new(self.ncols() as nat, |j: int| dot(self.column(j), v))
    }

    /// The squares of all cells, added up row by row.
    pub open spec fn sum_of_squares(self) -> T {
        sum_of(Seq::new(self.nrows() as nat, |i: int| dot(self.row(i), self.row(i))))
    }

    /// The dot product of row `i` with `v`.
    fn row_dot(&self, i: usize, v: &Vec<T>) -> (r: T)
        requires
            i < self.nrows(),
            v.len() == self.ncols(),
        ensures
            r == dot(self.row(i as int), v@),
    {
        let mut acc = T::zero();
        let mut j: usize = 0;
        while j < self.cols
            invariant
                i < self.nrows(),
                j <= self.ncols(),
                v.len() == self.ncols(),
                acc == sum_of(products(self.row(i as int), v@).take(j as int)),
            decreases self.ncols() - j,
        {
            proof {
                let p = products(self.row(i as int), v@);
                lemma_sum_of_push(p.take(j as int), p[j as int]);
                assert(p.take(j + 1) =~= p.take(j as int).push(p[j as int]));
            }
            acc = acc.add(self.cell(i, j).mul(v[j]));
            j = j + 1;
        }
        proof {
            let p = products(self.row(i as int), v@);
            assert(p.take(self.ncols() as int) =~= p);
        }
        acc
    }

    /// The product with a column vector that has one entry for each column.
    pub(crate) fn product(&self, v: &Vec<T>) -> (p: Vec<T>)
        requires
            v.len() == self.ncols(),
        ensures
            p@ == self.times(v@),
    {
        let mut out: Vec<T> = Vec::new();
        let mut i: usize = 0;
        while i < self.rows
            invariant
                i <= self.nrows(),
                v.len() == self.ncols(),
                out@ == self.times(v@).take(i as int),
            decreases self.nrows() - i,
        {
            out.push(self.row_dot(i, v));
            i = i + 1;
            assert(out@ =~= self.times(v@).take(i as int));
        }
        assert(self.times(v@).take(self.nrows() as int) =~= self.times(v@));
        out
    }

    /// Multiplies the matrix with a column vector, which has to have one
    /// entry for each column of the matrix.
    pub fn multiply(&self, v: &Vec<T>) -> (r: Result<Vec<T>, RegressionError>)
        ensures
            match r {
                Ok(p) => v.len() == self.ncols() && p@ == self.times(v@),
                Err(e) => e == RegressionError::DimensionMismatch && v.len() != self.ncols(),
            },
    {
        if v.len() != self.cols {
            return Err(RegressionError::DimensionMismatch);
        }
        Ok(self.product(v))
    }
}

/// Multiplying by the transpose of a matrix goes down the columns of that matrix.
pub proof fn lemma_transposed_times<T: Scalar>(x: Matrix<T>, t: Matrix<T>, v: Seq<T>)
    requires
        t.nrows() == x.ncols(),
        t.ncols() == x.nrows(),
        forall|i: int, j: int|
            0 <= i < x.nrows() && 0 <= j < x.ncols() ==> #[trigger] t.at(j, i) == x.at(i, j),
    ensures
        t.times(v) == x.transpose_times(v),
{
    assert forall|j: int| 0 <= j < x.ncols() implies t.row(j) == x.column(j) by {
        assert(t.row(j) =~= x.column(j));
    }
    assert(t.times(v) =~= x.transpose_times(v));
}

} // verus!
