//! From a table of examples to the design matrix and the label vector.
use crate::error::RegressionError;
use crate::matrix::Matrix;
use crate::predict::with_bias;
use crate::scalar::Scalar;
use vstd::prelude::*;

verus! {

/// Splits a table whose last column holds the labels.
///
/// Row `i` of the design matrix is the constant one followed by the features
/// of example `i`, which are all the cells of row `i` of the table but the
/// last. The label vector is the last column. A table without columns has no
/// label column and is refused.
pub fn design_matrix<T: Scalar>(table: &Matrix<T>) -> (r: Result<
    (Matrix<T>, Vec<T>),
    RegressionError,
>)
    ensures
        match r {
            Ok((x, y)) => {
                &&& table.ncols() > 0
                &&& x.nrows() == table.nrows()
                &&& x.ncols() == table.ncols()
                &&& forall|i: int|
                    0 <= i < table.nrows() ==> #[trigger] x.row(i) == with_bias(
                        table.row(i).drop_last(),
                    )
                &&& y@ == table.column(table.ncols() - 1)
            },
            Err(e) => e == RegressionError::DimensionMismatch && table.ncols() == 0,
        },
{
    let rows = table.nrows();
    let cols = table.ncols();
    if cols == 0 {
        return Err(RegressionError::DimensionMismatch);
    }
    let mut records: Vec<Vec<T>> = Vec::new();
    let mut labels: Vec<T> = Vec::new();
    let mut i: usize = 0;
    while i < rows
        invariant
            i <= rows,
            rows == table.nrows(),
            cols == table.ncols(),
            cols > 0,
            records.len() == i,
            labels.len() == i,
            forall|a: int| 0 <= a < i ==> (#[trigger] records[a])@ == with_bias(
                table.row(a).drop_last(),
            ),
            forall|a: int| 0 <= a < i ==> #[trigger] labels[a] == table.at(a, cols - 1),
        decreases rows - i,
    {
        let mut line: Vec<T> = Vec::new();
        line.push(T::one());
        let mut j: usize = 0;
        while j < cols - 1
            invariant
                i < rows,
                rows == table.nrows(),
                cols == table.ncols(),
                cols > 0,
                j <= cols - 1,
                line@ == with_bias(table.row(i as int).drop_last().take(j as int)),
            decreases cols - 1 - j,
        {
            line.push(table.cell(i, j));
            j = j + 1;
            assert(line@ =~= with_bias(table.row(i as int).drop_last().take(j as int)));
        }
        assert(table.row(i as int).drop_last().take(cols - 1) =~= table.row(i as int).drop_last());
        records.push(line);
        labels.push(table.cell(i, cols - 1));
        i = i + 1;
    }
    let x = Matrix::flatten(&records, cols);
    proof {
        assert forall|a: int| 0 <= a < table.nrows() implies #[trigger] x.row(a) == with_bias(
            table.row(a).drop_last(),
        ) by {
            assert forall|b: int| 0 <= b < cols implies x.row(a)[b] == records[a]@[b] by {
                assert(x.at(a, b) == records[a][b]);
            }
            assert(x.row(a) =~= records[a]@);
        }
        assert(labels@ =~= table.column(cols - 1));
    }
    Ok((x, labels))
}

} // verus!
