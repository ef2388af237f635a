//! Shape checks of the Sinkhorn optimal-transport inputs.
use vstd::prelude::*;

verus! {

/// A cost matrix of `rows` rows of `cols` entries each, given by the length
/// of each of its rows.
pub open spec fn has_shape(row_lengths: Seq<usize>, rows: nat, cols: nat) -> bool {
    row_lengths.len() == rows && forall|i: int| 0 <= i < row_lengths.len() ==> row_lengths[i] == cols
}

/// Whether a cost matrix with the given row lengths has one row per source
/// mass (`rows`) and one column per target mass (`cols`), as the Sinkhorn
/// iteration requires.
pub fn cost_matrix_fits(row_lengths: &Vec<usize>, rows: usize, cols: usize) -> (fits: bool)
    ensures
        fits == has_shape(row_lengths@, rows as nat, cols as nat),
        fits ==> row_lengths.len() == rows && forall|i: int|
            0 <= i < row_lengths.len() ==> row_lengths@[i] == cols,
        !fits ==> row_lengths.len() != rows || exists|i: int|
            0 <= i < row_lengths.len() && row_lengths@[i] != cols,
{
    if row_lengths.len() != rows {
        return false;
    }
    let mut i: usize = 0;
    while i < row_lengths.len()
        invariant
            i <= row_lengths.len(),
            row_lengths.len() == rows,
            forall|j: int| 0 <= j < i ==> row_lengths@[j] == cols,
        decreases row_lengths.len() - i,
    {
        if row_lengths[i] != cols {
            return false;
        }
        i = i + 1;
    }
    true
}

} // verus!
