//! The mathematical model: lines, the table of common-subsequence lengths,
//! and the sequence of events that a walk of the table gives.

use vstd::prelude::*;

verus! {

/// A line of text, as the sequence of its characters.
pub type Line = Seq<char>;

/// The lines that a sequence of strings holds.
pub open spec fn lines_of(text: Seq<String>) -> Seq<Line> {
    text.map_values(|s: String| s@)
}

/// The length of the longest common subsequence of the first `i` lines of
/// `left` and the first `j` lines of `right`.
pub open spec fn lcs_len(left: Seq<Line>, right: Seq<Line>, i: int, j: int) -> nat
    recommends
        i <= left.len(),
        j <= right.len(),
    decreases i + j,
{
    if i <= 0 || j <= 0 {
        0
    } else if left[i - 1] == right[j - 1] {
        lcs_len(left, right, i - 1, j - 1) + 1
    } else {
        let from_left = lcs_len(left, right, i, j - 1);
        let from_above = lcs_len(left, right, i - 1, j);
        if from_left >= from_above {
            from_left
        } else {
            from_above
        }
    }
}

/// `grid` is the table of `left` and `right`: one row more than `left` has
/// lines, one column more than `right` has lines, and in row `i`, column `j`
/// the value `lcs_len(left, right, i, j)`.
pub open spec fn is_lcs_table(grid: Seq<Vec<usize>>, left: Seq<Line>, right: Seq<Line>) -> bool {
    &&& grid.len() == left.len() + 1
    &&& forall|i: int| 0 <= i < grid.len() ==> (#[trigger] grid[i]).len() == right.len() + 1
    &&& forall|i: int, j: int|
        0 <= i <= left.len() && 0 <= j <= right.len() ==> #[trigger] grid[i][j] == lcs_len(
            left,
            right,
            i,
            j,
        )
}

/// No cell is larger than its row or its column index.
pub proof fn lemma_lcs_len_bounded(left: Seq<Line>, right: Seq<Line>, i: int, j: int)
    requires
        0 <= i,
        0 <= j,
    ensures
        lcs_len(left, right, i, j) <= i,
        lcs_len(left, right, i, j) <= j,
    decreases i + j,
{
    if i > 0 && j > 0 {
        lemma_lcs_len_bounded(left, right, i - 1, j - 1);
        lemma_lcs_len_bounded(left, right, i, j - 1);
        lemma_lcs_len_bounded(left, right, i - 1, j);
    }
}

/// What a walk tells of one line: that both texts have it, or only the left
/// one, or only the right one.
pub enum DiffEventView {
    Match(Line),
    LeftOnly(Line),
    RightOnly(Line),
}

impl DiffEventView {
    /// The line that the event is about.
    pub open spec fn line(self) -> Line {
        match self {
            DiffEventView::Match(line) => line,
            DiffEventView::LeftOnly(line) => line,
            DiffEventView::RightOnly(line) => line,
        }
    }
}

/// The events of a walk from cell (`i`, `j`) back to the origin, in the order
/// of the texts: first what the walk meets last.
///
/// At each cell a line that ends both prefixes is a match; else the walk goes
/// to the larger of the two neighbours, and on a tie to the left one, which
/// gives a line of `right`.
pub open spec fn walk_events(left: Seq<Line>, right: Seq<Line>, i: int, j: int) -> Seq<
    DiffEventView,
>
    recommends
        i <= left.len(),
        j <= right.len(),
    decreases i + j,
{
    if i < 0 || j < 0 {
        Seq::empty()
    } else if i > 0 && j > 0 && left[i - 1] == right[j - 1] {
        walk_events(left, right, i - 1, j - 1).push(DiffEventView::Match(left[i - 1]))
    } else if j > 0 && (i == 0 || lcs_len(left, right, i, j - 1) >= lcs_len(
        left,
        right,
        i - 1,
        j,
    )) {
        walk_events(left, right, i, j - 1).push(DiffEventView::RightOnly(right[j - 1]))
    } else if i > 0 {
        walk_events(left, right, i - 1, j).push(DiffEventView::LeftOnly(left[i - 1]))
    } else {
        Seq::empty()
    }
}

/// The events of the whole walk, from the last cell of the table.
pub open spec fn diff_events(left: Seq<Line>, right: Seq<Line>) -> Seq<DiffEventView> {
    walk_events(left, right, left.len() as int, right.len() as int)
}

/// The lines of the left text that a sequence of events tells of: those of
/// its matches and of its left-only events, in their order.
pub open spec fn left_text(events: Seq<DiffEventView>) -> Seq<Line>
    decreases events.len(),
{
    if events.len() == 0 {
        Seq::empty()
    } else {
        let before = left_text(events.drop_last());
        match events.last() {
            DiffEventView::RightOnly(_) => before,
            DiffEventView::Match(line) => before.push(line),
            DiffEventView::LeftOnly(line) => before.push(line),
        }
    }
}

/// The lines of the right text that a sequence of events tells of: those of
/// its matches and of its right-only events, in their order.
pub open spec fn right_text(events: Seq<DiffEventView>) -> Seq<Line>
    decreases events.len(),
{
    if events.len() == 0 {
        Seq::empty()
    } else {
        let before = right_text(events.drop_last());
        match events.last() {
            DiffEventView::LeftOnly(_) => before,
            DiffEventView::Match(line) => before.push(line),
            DiffEventView::RightOnly(line) => before.push(line),
        }
    }
}

/// The lines that both texts share, as a sequence of events tells them: those
/// of its matches, in their order.
pub open spec fn shared_text(events: Seq<DiffEventView>) -> Seq<Line>
    decreases events.len(),
{
    if events.len() == 0 {
        Seq::empty()
    } else {
        let before = shared_text(events.drop_last());
        match events.last() {
            DiffEventView::Match(line) => before.push(line),
            _ => before,
        }
    }
}

/// One match for each line of `text`.
pub open spec fn all_matches(text: Seq<Line>) -> Seq<DiffEventView> {
    Seq::new(text.len(), |k: int| DiffEventView::Match(text[k]))
}

/// One left-only event for each line of `text`.
pub open spec fn all_left_only(text: Seq<Line>) -> Seq<DiffEventView> {
    Seq::new(text.len(), |k: int| DiffEventView::LeftOnly(text[k]))
}

/// One right-only event for each line of `text`.
pub open spec fn all_right_only(text: Seq<Line>) -> Seq<DiffEventView> {
    Seq::new(text.len(), |k: int| DiffEventView::RightOnly(text[k]))
}

/// No line of `left` is a line of `right`.
pub open spec fn no_common_line(left: Seq<Line>, right: Seq<Line>) -> bool {
    forall|a: int, b: int| 0 <= a < left.len() && 0 <= b < right.len() ==> left[a] != right[b]
}

/// The line as it is shown: a shared line bare, a line of the left text after
/// `"< "`, a line of the right text after `"> "`.
pub open spec fn rendered(event: DiffEventView) -> Seq<char> {
    match event {
        DiffEventView::Match(line) => line,
        DiffEventView::LeftOnly(line) => seq!['<', ' '] + line,
        DiffEventView::RightOnly(line) => seq!['>', ' '] + line,
    }
}

} // verus!
