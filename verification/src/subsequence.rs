//! Common subsequences, and that the table holds the length of the longest.

use vstd::prelude::*;
use crate::model::{diff_events, lcs_len, shared_text, walk_events, Line};

verus! {

/// `part` can be had from `whole` by leaving lines out.
pub open spec fn is_subsequence(part: Seq<Line>, whole: Seq<Line>) -> bool
    decreases whole.len(),
{
    if part.len() == 0 {
        true
    } else if whole.len() == 0 {
        false
    } else {
        ||| is_subsequence(part, whole.drop_last())
        ||| (part.last() == whole.last() && is_subsequence(part.drop_last(), whole.drop_last()))
    }
}

/// `part` is a subsequence of both texts.
pub open spec fn is_common_subsequence(part: Seq<Line>, left: Seq<Line>, right: Seq<Line>) -> bool {
    is_subsequence(part, left) && is_subsequence(part, right)
}

/// From a neighbour above or to the left to the cell itself the table does
/// not fall, and rises by one at most.
pub proof fn lemma_lcs_len_steps(left: Seq<Line>, right: Seq<Line>, i: int, j: int)
    requires
        0 <= i <= left.len(),
        0 <= j <= right.len(),
    ensures
        i > 0 ==> lcs_len(left, right, i - 1, j) <= lcs_len(left, right, i, j) <= lcs_len(
            left,
            right,
            i - 1,
            j,
        ) + 1,
        j > 0 ==> lcs_len(left, right, i, j - 1) <= lcs_len(left, right, i, j) <= lcs_len(
            left,
            right,
            i,
            j - 1,
        ) + 1,
    decreases i + j,
{
    if i > 0 {
        lemma_lcs_len_steps(left, right, i - 1, j);
    }
    if j > 0 {
        lemma_lcs_len_steps(left, right, i, j - 1);
    }
}

/// No common subsequence of the first `i` lines of `left` and the first `j`
/// lines of `right` is longer than the table's cell (`i`, `j`) says.
pub proof fn lemma_lcs_len_bounds_common(
    left: Seq<Line>,
    right: Seq<Line>,
    i: int,
    j: int,
    part: Seq<Line>,
)
    requires
        0 <= i <= left.len(),
        0 <= j <= right.len(),
        is_common_subsequence(part, left.take(i), right.take(j)),
    ensures
        part.len() <= lcs_len(left, right, i, j),
    decreases i + j,
{
    if part.len() > 0 {
        assert(i > 0 && j > 0);
        assert(left.take(i).drop_last() =~= left.take(i - 1));
        assert(right.take(j).drop_last() =~= right.take(j - 1));
        if is_subsequence(part, left.take(i - 1)) {
            lemma_lcs_len_bounds_common(left, right, i - 1, j, part);
            lemma_lcs_len_steps(left, right, i, j);
        } else if is_subsequence(part, right.take(j - 1)) {
            lemma_lcs_len_bounds_common(left, right, i, j - 1, part);
            lemma_lcs_len_steps(left, right, i, j);
        } else {
            lemma_lcs_len_bounds_common(left, right, i - 1, j - 1, part.drop_last());
        }
    }
}

/// The matches of the walk from cell (`i`, `j`) are a common subsequence of
/// the first `i` lines of `left` and the first `j` lines of `right`, and there
/// are as many of them as the cell says.
pub proof fn lemma_matches_are_common(left: Seq<Line>, right: Seq<Line>, i: int, j: int)
    requires
        0 <= i <= left.len(),
        0 <= j <= right.len(),
    ensures
        is_common_subsequence(
            shared_text(walk_events(left, right, i, j)),
            left.take(i),
            right.take(j),
        ),
        shared_text(walk_events(left, right, i, j)).len() == lcs_len(left, right, i, j),
    decreases i + j,
{
    let events = walk_events(left, right, i, j);
    let shared = shared_text(events);
    if i > 0 {
        assert(left.take(i).drop_last() =~= left.take(i - 1));
    }
    if j > 0 {
        assert(right.take(j).drop_last() =~= right.take(j - 1));
    }
    if i > 0 && j > 0 && left[i - 1] == right[j - 1] {
        lemma_matches_are_common(left, right, i - 1, j - 1);
        let before = walk_events(left, right, i - 1, j - 1);
        assert(events.drop_last() =~= before);
        assert(shared.drop_last() =~= shared_text(before));
    } else if j > 0 && (i == 0 || lcs_len(left, right, i, j - 1) >= lcs_len(
        left,
        right,
        i - 1,
        j,
    )) {
        lemma_matches_are_common(left, right, i, j - 1);
        assert(events.drop_last() =~= walk_events(left, right, i, j - 1));
    } else if i > 0 {
        lemma_matches_are_common(left, right, i - 1, j);
        assert(events.drop_last() =~= walk_events(left, right, i - 1, j));
    }
}

/// The last cell of the table holds the length of the longest common
/// subsequence of the two texts: the matches of the difference are a common
/// subsequence of that length, and no common subsequence is longer.
pub proof fn lemma_lcs_len_is_longest(left: Seq<Line>, right: Seq<Line>)
    ensures
        is_common_subsequence(shared_text(diff_events(left, right)), left, right),
        shared_text(diff_events(left, right)).len() == lcs_len(
            left,
            right,
            left.len() as int,
            right.len() as int,
        ),
        forall|part: Seq<Line>| #[trigger]
            is_common_subsequence(part, left, right) ==> part.len() <= lcs_len(
                left,
                right,
                left.len() as int,
                right.len() as int,
            ),
{
    assert(left.take(left.len() as int) =~= left);
    assert(right.take(right.len() as int) =~= right);
    lemma_matches_are_common(left, right, left.len() as int, right.len() as int);
    assert forall|part: Seq<Line>| #[trigger]
        is_common_subsequence(part, left, right) implies part.len() <= lcs_len(
        left,
        right,
        left.len() as int,
        right.len() as int,
    ) by {
        lemma_lcs_len_bounds_common(left, right, left.len() as int, right.len() as int, part);
    }
}

} // verus!
