//! Walking the table back from a cell to the origin.

use vstd::prelude::*;
use crate::event::{events_of, DiffEvent};
use crate::laws::{lemma_round_trip, lemma_round_trip_prefix};
use crate::model::{
    diff_events, is_lcs_table, left_text, lines_of, right_text, walk_events, DiffEventView,
};
use crate::table::longest_common_subsequence;

verus! {

/// Turns a sequence of events round.
fn reversed(back: Vec<DiffEvent>) -> (events: Vec<DiffEvent>)
    ensures
        events_of(events@) == events_of(back@).reverse(),
{
    let ghost whole = events_of(back@);
    let mut back = back;
    let mut events: Vec<DiffEvent> = Vec::new();
    while back.len() > 0
        invariant
            events_of(back@) == whole.take(back.len() as int),
            back.len() <= whole.len(),
            events_of(events@) == whole.skip(back.len() as int).reverse(),
        decreases back.len(),
    {
        let ghost before = events_of(events@);
        let ghost rest = back.len() as int;
        let ghost end = back@[rest - 1];
        assert(events_of(back@)[rest - 1] == end@);
        let last = back.pop().unwrap();
        assert(last@ == whole[rest - 1]);
        events.push(last);
        assert(events_of(events@) =~= before.push(whole[rest - 1]));
        assert(events_of(back@) =~= whole.take(rest - 1));
        assert(before.push(whole[rest - 1]) =~= whole.skip(rest - 1).reverse());
    }
    assert(whole.skip(0) =~= whole);
    events
}

/// The events of the walk from cell (`file1_iter`, `file2_iter`) of `grid`
/// back to the origin, in the order of the texts.
///
/// `grid` must be the table of these two texts.
pub fn walk_from(
    grid: &Vec<Vec<usize>>,
    file1: &[String],
    file2: &[String],
    file1_iter: usize,
    file2_iter: usize,
) -> (events: Vec<DiffEvent>)
    requires
        is_lcs_table(grid@, lines_of(file1@), lines_of(file2@)),
        file1_iter <= file1.len(),
        file2_iter <= file2.len(),
    ensures
        events_of(events@) == walk_events(
            lines_of(file1@),
            lines_of(file2@),
            file1_iter as int,
            file2_iter as int,
        ),
        left_text(events_of(events@)) == lines_of(file1@).take(file1_iter as int),
        right_text(events_of(events@)) == lines_of(file2@).take(file2_iter as int),
{
    let ghost left = lines_of(file1@);
    let ghost right = lines_of(file2@);
    let ghost whole = walk_events(left, right, file1_iter as int, file2_iter as int);
    let mut back: Vec<DiffEvent> = Vec::new();
    let mut i: usize = file1_iter;
    let mut j: usize = file2_iter;
    assert(events_of(back@).reverse() =~= Seq::<DiffEventView>::empty());
    assert(whole =~= whole + Seq::<DiffEventView>::empty());
    while i > 0 || j > 0
        invariant
            i <= file1.len(),
            j <= file2.len(),
            left == lines_of(file1@),
            right == lines_of(file2@),
            is_lcs_table(grid@, left, right),
            whole == walk_events(left, right, i as int, j as int) + events_of(back@).reverse(),
        decreases i + j,
    {
        let ghost here = walk_events(left, right, i as int, j as int);
        let ghost before = events_of(back@);
        let event = if i > 0 && j > 0 && file1[i - 1] == file2[j - 1] {
            i -= 1;
            j -= 1;
            DiffEvent::Match(file1[i].clone())
        } else if j > 0 && (i == 0 || grid[i][j - 1] >= grid[i - 1][j]) {
            j -= 1;
            DiffEvent::RightOnly(file2[j].clone())
        } else {
            i -= 1;
            DiffEvent::LeftOnly(file1[i].clone())
        };
        assert(here == walk_events(left, right, i as int, j as int).push(event@));
        back.push(event);
        assert(events_of(back@) =~= before.push(event@));
        assert(before.push(event@).reverse() =~= seq![event@] + before.reverse());
        assert(here + before.reverse() =~= walk_events(left, right, i as int, j as int)
            + events_of(back@).reverse());
    }
    let events = reversed(back);
    assert(whole =~= events_of(events@));
    proof {
        lemma_round_trip_prefix(left, right, file1_iter as int, file2_iter as int);
    }
    events
}

/// The events of the whole walk of `grid`, from its last cell: the
/// difference of the two texts. Two empty texts give no event.
///
/// `grid` must be the table of these two texts.
pub fn walk(grid: &Vec<Vec<usize>>, file1: &[String], file2: &[String]) -> (events: Vec<DiffEvent>)
    requires
        is_lcs_table(grid@, lines_of(file1@), lines_of(file2@)),
    ensures
        events_of(events@) == diff_events(lines_of(file1@), lines_of(file2@)),
        left_text(events_of(events@)) == lines_of(file1@),
        right_text(events_of(events@)) == lines_of(file2@),
{
    proof {
        lemma_round_trip(lines_of(file1@), lines_of(file2@));
    }
    walk_from(grid, file1, file2, file1.len(), file2.len())
}

/// The difference of two texts: the table, then the walk.
pub fn diff(file1: &[String], file2: &[String]) -> (events: Vec<DiffEvent>)
    ensures
        events_of(events@) == diff_events(lines_of(file1@), lines_of(file2@)),
        left_text(events_of(events@)) == lines_of(file1@),
        right_text(events_of(events@)) == lines_of(file2@),
{
    let grid = longest_common_subsequence(file1, file2);
    walk(&grid, file1, file2)
}

} // verus!
