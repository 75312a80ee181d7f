//! What holds of every table and every walk.

use vstd::prelude::*;
use crate::event::{events_of, DiffEvent};
use crate::model::{
    all_left_only, all_matches, all_right_only, diff_events, is_lcs_table, lcs_len, left_text,
    lines_of, no_common_line, rendered, right_text, walk_events, DiffEventView, Line,
};

verus! {

/// The walk from cell (`k`, `k`) of the table of a text with itself gives one
/// match for each of the first `k` lines.
pub proof fn lemma_identity_prefix(text: Seq<Line>, k: int)
    requires
        0 <= k <= text.len(),
    ensures
        walk_events(text, text, k, k) == all_matches(text.take(k)),
    decreases k,
{
    if k > 0 {
        lemma_identity_prefix(text, k - 1);
        assert(all_matches(text.take(k - 1)).push(DiffEventView::Match(text[k - 1]))
            =~= all_matches(text.take(k)));
    } else {
        assert(walk_events(text, text, k, k) =~= all_matches(text.take(k)));
    }
}

/// A text against itself gives only matches, one for each line, in order.
pub proof fn lemma_identity(text: Seq<Line>)
    ensures
        diff_events(text, text) == all_matches(text),
        left_text(diff_events(text, text)) == text,
        right_text(diff_events(text, text)) == text,
{
    lemma_identity_prefix(text, text.len() as int);
    assert(text.take(text.len() as int) =~= text);
    lemma_round_trip(text, text);
}

/// Two empty texts have a table of one cell, which holds zero, and a walk
/// without events.
pub proof fn lemma_both_empty(grid: Seq<Vec<usize>>)
    requires
        is_lcs_table(grid, Seq::empty(), Seq::empty()),
    ensures
        grid.len() == 1,
        grid[0].len() == 1,
        grid[0][0] == 0,
        diff_events(Seq::empty(), Seq::empty()) == Seq::<DiffEventView>::empty(),
{
}

/// With no line on the left, the walk from column `j` gives one right-only
/// event for each of the first `j` lines of `right`.
pub proof fn lemma_left_empty_prefix(right: Seq<Line>, j: int)
    requires
        0 <= j <= right.len(),
    ensures
        walk_events(Seq::empty(), right, 0, j) == all_right_only(right.take(j)),
    decreases j,
{
    if j > 0 {
        lemma_left_empty_prefix(right, j - 1);
        assert(all_right_only(right.take(j - 1)).push(DiffEventView::RightOnly(right[j - 1]))
            =~= all_right_only(right.take(j)));
    } else {
        assert(walk_events(Seq::empty(), right, 0, j) =~= all_right_only(right.take(j)));
    }
}

/// With no line on the right, the walk from row `i` gives one left-only event
/// for each of the first `i` lines of `left`.
pub proof fn lemma_right_empty_prefix(left: Seq<Line>, right: Seq<Line>, i: int)
    requires
        0 <= i <= left.len(),
    ensures
        walk_events(left, right, i, 0) == all_left_only(left.take(i)),
    decreases i,
{
    if i > 0 {
        lemma_right_empty_prefix(left, right, i - 1);
        assert(all_left_only(left.take(i - 1)).push(DiffEventView::LeftOnly(left[i - 1]))
            =~= all_left_only(left.take(i)));
    } else {
        assert(walk_events(left, right, i, 0) =~= all_left_only(left.take(i)));
    }
}

/// Against an empty left text every line of `right` is right-only, in order;
/// the table holds zero in every cell.
pub proof fn lemma_left_empty(right: Seq<Line>)
    ensures
        diff_events(Seq::empty(), right) == all_right_only(right),
        forall|j: int| 0 <= j <= right.len() ==> lcs_len(Seq::empty(), right, 0, j) == 0,
{
    lemma_left_empty_prefix(right, right.len() as int);
    assert(right.take(right.len() as int) =~= right);
}

/// Against an empty right text every line of `left` is left-only, in order;
/// the table holds zero in every cell.
pub proof fn lemma_right_empty(left: Seq<Line>)
    ensures
        diff_events(left, Seq::empty()) == all_left_only(left),
        forall|i: int| 0 <= i <= left.len() ==> lcs_len(left, Seq::empty(), i, 0) == 0,
{
    lemma_right_empty_prefix(left, Seq::empty(), left.len() as int);
    assert(left.take(left.len() as int) =~= left);
}

/// Where the texts share no line, every cell of the table holds zero.
pub proof fn lemma_no_common_line_table(left: Seq<Line>, right: Seq<Line>, i: int, j: int)
    requires
        no_common_line(left, right),
        i <= left.len(),
        j <= right.len(),
    ensures
        lcs_len(left, right, i, j) == 0,
    decreases i + j,
{
    if i > 0 && j > 0 {
        lemma_no_common_line_table(left, right, i, j - 1);
        lemma_no_common_line_table(left, right, i - 1, j);
    }
}

/// Where the texts share no line, the walk from cell (`i`, `j`) first goes
/// left through the `j` lines of `right` and then up through the `i` lines of
/// `left`; in the order of the texts the left-only events come first.
pub proof fn lemma_no_common_line_prefix(left: Seq<Line>, right: Seq<Line>, i: int, j: int)
    requires
        no_common_line(left, right),
        0 <= i <= left.len(),
        0 <= j <= right.len(),
    ensures
        walk_events(left, right, i, j) == all_left_only(left.take(i)) + all_right_only(
            right.take(j),
        ),
    decreases j,
{
    if j > 0 {
        lemma_no_common_line_prefix(left, right, i, j - 1);
        lemma_no_common_line_table(left, right, i, j - 1);
        lemma_no_common_line_table(left, right, i - 1, j);
        assert((all_left_only(left.take(i)) + all_right_only(right.take(j - 1))).push(
            DiffEventView::RightOnly(right[j - 1]),
        ) =~= all_left_only(left.take(i)) + all_right_only(right.take(j)));
    } else {
        lemma_right_empty_prefix(left, right, i);
        assert(all_left_only(left.take(i)) =~= all_left_only(left.take(i)) + all_right_only(
            right.take(j),
        ));
    }
}

/// Where the texts share no line, the walk gives no match: it meets the lines
/// of `right`, last to first, and then those of `left`, last to first. In the
/// order of the texts this is every line of `left` as left-only, followed by
/// every line of `right` as right-only.
pub proof fn lemma_no_common_line(left: Seq<Line>, right: Seq<Line>)
    requires
        no_common_line(left, right),
    ensures
        diff_events(left, right) == all_left_only(left) + all_right_only(right),
        diff_events(left, right).reverse() == all_right_only(right).reverse() + all_left_only(
            left,
        ).reverse(),
        diff_events(left, right).len() == left.len() + right.len(),
{
    lemma_no_common_line_prefix(left, right, left.len() as int, right.len() as int);
    assert(left.take(left.len() as int) =~= left);
    assert(right.take(right.len() as int) =~= right);
    assert((all_left_only(left) + all_right_only(right)).reverse() =~= all_right_only(
        right,
    ).reverse() + all_left_only(left).reverse());
}

/// The events of the walk from cell (`i`, `j`) tell the first `i` lines of
/// `left` and the first `j` lines of `right`.
pub proof fn lemma_round_trip_prefix(left: Seq<Line>, right: Seq<Line>, i: int, j: int)
    requires
        0 <= i <= left.len(),
        0 <= j <= right.len(),
    ensures
        left_text(walk_events(left, right, i, j)) == left.take(i),
        right_text(walk_events(left, right, i, j)) == right.take(j),
    decreases i + j,
{
    let events = walk_events(left, right, i, j);
    if i > 0 && j > 0 && left[i - 1] == right[j - 1] {
        let before = walk_events(left, right, i - 1, j - 1);
        lemma_round_trip_prefix(left, right, i - 1, j - 1);
        assert(events.drop_last() =~= before);
        assert(left.take(i - 1).push(left[i - 1]) =~= left.take(i));
        assert(right.take(j - 1).push(right[j - 1]) =~= right.take(j));
    } else if j > 0 && (i == 0 || lcs_len(left, right, i, j - 1) >= lcs_len(
        left,
        right,
        i - 1,
        j,
    )) {
        let before = walk_events(left, right, i, j - 1);
        lemma_round_trip_prefix(left, right, i, j - 1);
        assert(events.drop_last() =~= before);
        assert(right.take(j - 1).push(right[j - 1]) =~= right.take(j));
    } else if i > 0 {
        let before = walk_events(left, right, i - 1, j);
        lemma_round_trip_prefix(left, right, i - 1, j);
        assert(events.drop_last() =~= before);
        assert(left.take(i - 1).push(left[i - 1]) =~= left.take(i));
    } else {
        assert(left.take(i) =~= Seq::<Line>::empty());
        assert(right.take(j) =~= Seq::<Line>::empty());
    }
}

/// The matches and left-only events of a difference, in their order, are the
/// left text; its matches and right-only events are the right text.
pub proof fn lemma_round_trip(left: Seq<Line>, right: Seq<Line>)
    ensures
        left_text(diff_events(left, right)) == left,
        right_text(diff_events(left, right)) == right,
{
    lemma_round_trip_prefix(left, right, left.len() as int, right.len() as int);
    assert(left.take(left.len() as int) =~= left);
    assert(right.take(right.len() as int) =~= right);
}

/// Two tables of the same texts hold the same values.
pub proof fn lemma_table_determined(
    first: Seq<Vec<usize>>,
    second: Seq<Vec<usize>>,
    left: Seq<Line>,
    right: Seq<Line>,
)
    requires
        is_lcs_table(first, left, right),
        is_lcs_table(second, left, right),
    ensures
        first.len() == second.len(),
        forall|i: int| 0 <= i < first.len() ==> first[i]@ == second[i]@,
{
    assert forall|i: int| 0 <= i < first.len() implies first[i]@ == second[i]@ by {
        assert(first[i].len() == second[i].len());
        assert forall|j: int| 0 <= j < first[i].len() implies first[i]@[j] == second[i]@[j] by {
            assert(first[i][j] == lcs_len(left, right, i, j));
            assert(second[i][j] == lcs_len(left, right, i, j));
        }
        assert(first[i]@ =~= second[i]@);
    }
}

/// Two differences of texts that hold the same lines are the same events,
/// and are shown as the same lines.
pub proof fn lemma_events_determined(
    first: Seq<DiffEvent>,
    second: Seq<DiffEvent>,
    file1: Seq<String>,
    file2: Seq<String>,
    again1: Seq<String>,
    again2: Seq<String>,
)
    requires
        lines_of(file1) == lines_of(again1),
        lines_of(file2) == lines_of(again2),
        events_of(first) == diff_events(lines_of(file1), lines_of(file2)),
        events_of(second) == diff_events(lines_of(again1), lines_of(again2)),
    ensures
        events_of(first) == events_of(second),
        first.len() == second.len(),
        forall|k: int| 0 <= k < first.len() ==> rendered(first[k]@) == rendered(second[k]@),
{
    assert(events_of(first).len() == first.len());
    assert(events_of(second).len() == second.len());
    assert forall|k: int| 0 <= k < first.len() implies rendered(first[k]@) == rendered(
        second[k]@,
    ) by {
        assert(events_of(first)[k] == first[k]@);
        assert(events_of(second)[k] == second[k]@);
    }
}

} // verus!
