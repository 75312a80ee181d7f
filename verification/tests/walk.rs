use line_diff::{diff, longest_common_subsequence, walk, walk_from, DiffEvent};

fn lines(items: &[&str]) -> Vec<String> {
    items.iter().map(|l| l.to_string()).collect()
}

fn m(line: &str) -> DiffEvent {
    DiffEvent::Match(line.to_string())
}

fn l(line: &str) -> DiffEvent {
    DiffEvent::LeftOnly(line.to_string())
}

fn r(line: &str) -> DiffEvent {
    DiffEvent::RightOnly(line.to_string())
}

fn left_side(events: &[DiffEvent]) -> Vec<String> {
    let mut out = Vec::new();
    for e in events {
        match e {
            DiffEvent::Match(s) | DiffEvent::LeftOnly(s) => out.push(s.clone()),
            DiffEvent::RightOnly(_) => {}
        }
    }
    out
}

fn right_side(events: &[DiffEvent]) -> Vec<String> {
    let mut out = Vec::new();
    for e in events {
        match e {
            DiffEvent::Match(s) | DiffEvent::RightOnly(s) => out.push(s.clone()),
            DiffEvent::LeftOnly(_) => {}
        }
    }
    out
}

#[test]
fn four_line_texts_give_the_known_events() {
    let left = lines(&["a", "c", "d", "e"]);
    let right = lines(&["a", "b", "c", "d"]);
    let grid = longest_common_subsequence(&left, &right);
    assert_eq!(grid[4][4], 3);
    let events = walk(&grid, &left, &right);
    assert_eq!(events, vec![m("a"), r("b"), m("c"), m("d"), l("e")]);
}

#[test]
fn four_line_texts_are_shown_with_their_marks() {
    let left = lines(&["a", "c", "d", "e"]);
    let right = lines(&["a", "b", "c", "d"]);
    let shown: Vec<String> = diff(&left, &right).iter().map(|e| e.render()).collect();
    assert_eq!(shown, lines(&["a", "> b", "c", "d", "< e"]));
}

#[test]
fn a_text_against_itself_is_all_matches() {
    let s = lines(&["one", "two", "", "two", "three"]);
    let grid = longest_common_subsequence(&s, &s);
    let events = walk(&grid, &s, &s);
    assert_eq!(events, vec![m("one"), m("two"), m(""), m("two"), m("three")]);
    assert_eq!(left_side(&events), s);
    assert_eq!(right_side(&events), s);
}

#[test]
fn a_single_line_against_itself_is_one_match() {
    let s = lines(&["only"]);
    assert_eq!(diff(&s, &s), vec![m("only")]);
}

#[test]
fn two_empty_texts_give_no_event() {
    let grid = longest_common_subsequence(&[], &[]);
    assert_eq!(grid, vec![vec![0usize]]);
    let events = walk(&grid, &[], &[]);
    assert!(events.is_empty());
    assert!(diff(&[], &[]).is_empty());
}

#[test]
fn empty_left_gives_every_right_line_in_order() {
    let right = lines(&["x", "y", "z"]);
    let grid = longest_common_subsequence(&[], &right);
    let events = walk(&grid, &[], &right);
    assert_eq!(events, vec![r("x"), r("y"), r("z")]);
}

#[test]
fn empty_right_gives_every_left_line_in_order() {
    let left = lines(&["x", "y", "z"]);
    let grid = longest_common_subsequence(&left, &[]);
    let events = walk(&grid, &left, &[]);
    assert_eq!(events, vec![l("x"), l("y"), l("z")]);
}

#[test]
fn no_common_line_walks_right_then_left() {
    let left = lines(&["a", "b"]);
    let right = lines(&["x", "y", "z"]);
    let grid = longest_common_subsequence(&left, &right);
    let events = walk(&grid, &left, &right);
    // In the order of the texts the lines that the walk met last come first.
    assert_eq!(events, vec![l("a"), l("b"), r("x"), r("y"), r("z")]);
    let mut met = events.clone();
    met.reverse();
    assert_eq!(met, vec![r("z"), r("y"), r("x"), l("b"), l("a")]);
    assert_eq!(met.iter().take(3).filter(|e| matches!(e, DiffEvent::RightOnly(_))).count(), 3);
    assert_eq!(met.iter().skip(3).filter(|e| matches!(e, DiffEvent::LeftOnly(_))).count(), 2);
}

#[test]
fn a_tie_goes_to_the_right_text() {
    let left = lines(&["a"]);
    let right = lines(&["b"]);
    let grid = longest_common_subsequence(&left, &right);
    assert_eq!(grid[1][0], grid[0][1]);
    assert_eq!(walk(&grid, &left, &right), vec![l("a"), r("b")]);
}

#[test]
fn a_tie_between_two_alignments_goes_to_the_right_text() {
    let left = lines(&["a", "b"]);
    let right = lines(&["b", "a"]);
    let grid = longest_common_subsequence(&left, &right);
    assert_eq!(grid[2][1], 1);
    assert_eq!(grid[1][2], 1);
    // From the last cell the walk goes left first, so `a` of the right text
    // is met before anything else and comes out last.
    assert_eq!(walk(&grid, &left, &right), vec![l("a"), m("b"), r("a")]);
}

#[test]
fn a_larger_cell_above_gives_a_left_only_line() {
    let left = lines(&["a", "x"]);
    let right = lines(&["a"]);
    assert_eq!(diff(&left, &right), vec![m("a"), l("x")]);
    let left = lines(&["x", "a", "y"]);
    let right = lines(&["a", "z"]);
    assert_eq!(diff(&left, &right), vec![l("x"), m("a"), l("y"), r("z")]);
}

#[test]
fn events_tell_both_texts() {
    let cases: Vec<(Vec<String>, Vec<String>)> = vec![
        (lines(&["a", "c", "d", "e"]), lines(&["a", "b", "c", "d"])),
        (lines(&[]), lines(&["q"])),
        (lines(&["q"]), lines(&[])),
        (lines(&["a", "a", "b"]), lines(&["a", "b", "a"])),
        (lines(&["x", "", "x", ""]), lines(&["", "x", ""])),
        (lines(&["1", "2", "3", "4", "5"]), lines(&["5", "4", "3", "2", "1"])),
    ];
    for (left, right) in cases {
        let events = diff(&left, &right);
        assert_eq!(left_side(&events), left);
        assert_eq!(right_side(&events), right);
    }
}

#[test]
fn matches_are_as_many_as_the_last_cell_says() {
    let left = lines(&["a", "b", "c", "b", "d", "a", "b"]);
    let right = lines(&["b", "d", "c", "a", "b", "a"]);
    let grid = longest_common_subsequence(&left, &right);
    assert_eq!(grid[7][6], 4);
    let events = walk(&grid, &left, &right);
    let matches = events.iter().filter(|e| matches!(e, DiffEvent::Match(_))).count();
    assert_eq!(matches, 4);
    assert_eq!(left_side(&events), left);
    assert_eq!(right_side(&events), right);
}

#[test]
fn the_walk_from_an_inner_cell_tells_the_prefixes() {
    let left = lines(&["a", "c", "d", "e"]);
    let right = lines(&["a", "b", "c", "d"]);
    let grid = longest_common_subsequence(&left, &right);
    assert_eq!(walk_from(&grid, &left, &right, 0, 0), vec![]);
    assert_eq!(walk_from(&grid, &left, &right, 1, 2), vec![m("a"), r("b")]);
    assert_eq!(walk_from(&grid, &left, &right, 2, 3), vec![m("a"), r("b"), m("c")]);
    assert_eq!(walk_from(&grid, &left, &right, 4, 0), vec![l("a"), l("c"), l("d"), l("e")]);
    assert_eq!(walk_from(&grid, &left, &right, 0, 2), vec![r("a"), r("b")]);
    assert_eq!(walk_from(&grid, &left, &right, 4, 4), walk(&grid, &left, &right));
}

#[test]
fn the_difference_is_the_walk_of_the_table() {
    let left = lines(&["k", "l", "m"]);
    let right = lines(&["l", "m", "n"]);
    let grid = longest_common_subsequence(&left, &right);
    assert_eq!(diff(&left, &right), walk(&grid, &left, &right));
    assert_eq!(diff(&left, &right), vec![l("k"), m("l"), m("m"), r("n")]);
}

#[test]
fn the_difference_is_the_same_on_every_run() {
    let left = lines(&["a", "c", "d", "e", "a"]);
    let right = lines(&["a", "b", "c", "d", "a", "a"]);
    let first = diff(&left, &right);
    let second = diff(&left, &right);
    assert_eq!(first, second);
    let shown_first: Vec<String> = first.iter().map(|e| e.render()).collect();
    let shown_second: Vec<String> = second.iter().map(|e| e.render()).collect();
    assert_eq!(shown_first, shown_second);
    let again_left = left.clone();
    let again_right = right.clone();
    assert_eq!(diff(&again_left, &again_right), first);
}

#[test]
fn lines_are_compared_without_any_folding() {
    let left = lines(&["Hello", "world "]);
    let right = lines(&["hello", "world"]);
    assert_eq!(
        diff(&left, &right),
        vec![l("Hello"), l("world "), r("hello"), r("world")]
    );
}

#[test]
fn each_event_is_shown_with_its_mark() {
    assert_eq!(m("same").render(), "same");
    assert_eq!(l("gone").render(), "< gone");
    assert_eq!(r("new").render(), "> new");
    assert_eq!(m("").render(), "");
    assert_eq!(l("").render(), "< ");
    assert_eq!(r("").render(), "> ");
    assert_eq!(l("< x").render(), "< < x");
}

#[test]
fn each_event_gives_its_line() {
    assert_eq!(m("same").line(), "same");
    assert_eq!(l("gone").line(), "gone");
    assert_eq!(r("new").line(), "new");
}
