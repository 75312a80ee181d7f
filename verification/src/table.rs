//! Building the table of common-subsequence lengths.

use vstd::prelude::*;
use crate::model::{is_lcs_table, lcs_len, lemma_lcs_len_bounded, lines_of};

verus! {

/// Builds the table of the lengths of the longest common subsequences of
/// every prefix of `file1` with every prefix of `file2`.
pub fn longest_common_subsequence(file1: &[String], file2: &[String]) -> (grid: Vec<Vec<usize>>)
    ensures
        is_lcs_table(grid@, lines_of(file1@), lines_of(file2@)),
{
    let ghost left = lines_of(file1@);
    let ghost right = lines_of(file2@);
    let rows: usize = file1.len();
    let cols: usize = file2.len();

    let mut first: Vec<usize> = Vec::new();
    first.push(0);
    let mut j: usize = 0;
    while j < cols
        invariant
            j <= cols,
            first.len() == j + 1,
            forall|k: int| 0 <= k <= j ==> first[k] == 0,
        decreases cols - j,
    {
        first.push(0);
        j += 1;
    }

    let mut grid: Vec<Vec<usize>> = Vec::new();
    grid.push(first);

    let mut i: usize = 0;
    while i < rows
        invariant
            i <= rows,
            rows == file1.len(),
            cols == file2.len(),
            left == lines_of(file1@),
            right == lines_of(file2@),
            grid.len() == i + 1,
            forall|r: int| 0 <= r <= i ==> (#[trigger] grid[r]).len() == cols + 1,
            forall|r: int, c: int|
                0 <= r <= i && 0 <= c <= cols ==> #[trigger] grid[r][c] == lcs_len(
                    left,
                    right,
                    r,
                    c,
                ),
        decreases rows - i,
    {
        let mut row: Vec<usize> = Vec::new();
        row.push(0);
        let mut j: usize = 0;
        while j < cols
            invariant
                i < rows,
                j <= cols,
                rows == file1.len(),
                cols == file2.len(),
                left == lines_of(file1@),
                right == lines_of(file2@),
                grid.len() == i + 1,
                grid[i as int].len() == cols + 1,
                forall|c: int|
                    0 <= c <= cols ==> #[trigger] grid[i as int][c] == lcs_len(
                        left,
                        right,
                        i as int,
                        c,
                    ),
                row.len() == j + 1,
                forall|c: int|
                    0 <= c <= j ==> #[trigger] row[c] == lcs_len(left, right, i + 1, c),
            decreases cols - j,
        {
            let cell: usize = if file1[i] == file2[j] {
                proof {
                    lemma_lcs_len_bounded(left, right, i as int, j as int);
                }
                grid[i][j] + 1
            } else {
                let from_left: usize = row[j];
                let from_above: usize = grid[i][j + 1];
                if from_left >= from_above {
                    from_left
                } else {
                    from_above
                }
            };
            row.push(cell);
            j += 1;
        }
        grid.push(row);
        i += 1;
    }
    grid
}

} // verus!
