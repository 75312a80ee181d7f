//! The events of a difference, as values.

use vstd::prelude::*;
use vstd::string::StringExecFns;
use crate::model::{rendered, DiffEventView};

verus! {

/// One line of a difference.
#[derive(Debug, Clone, PartialEq, Eq)]
pub enum DiffEvent {
    /// A line that both texts have.
    Match(String),
    /// A line that only the left text has.
    LeftOnly(String),
    /// A line that only the right text has.
    RightOnly(String),
}

impl View for DiffEvent {
    type V = DiffEventView;

    open spec fn view(&self) -> DiffEventView {
        match self {
            DiffEvent::Match(line) => DiffEventView::Match(line@),
            DiffEvent::LeftOnly(line) => DiffEventView::LeftOnly(line@),
            DiffEvent::RightOnly(line) => DiffEventView::RightOnly(line@),
        }
    }
}

/// What a sequence of events holds.
pub open spec fn events_of(events: Seq<DiffEvent>) -> Seq<DiffEventView> {
    events.map_values(|e: DiffEvent| e@)
}

impl DiffEvent {
    /// The text of the line that the event is about.
    pub fn line(&self) -> (text: &String)
        ensures
            text@ == self@.line(),
    {
        match self {
            DiffEvent::Match(line) => line,
            DiffEvent::LeftOnly(line) => line,
            DiffEvent::RightOnly(line) => line,
        }
    }

    /// The line as it is shown: bare where both texts have it, after `"< "`
    /// where only the left one has it, after `"> "` where only the right one has it.
    pub fn render(&self) -> (shown: String)
        ensures
            shown@ == rendered(self@),
    {
        proof {
            reveal_strlit("< ");
            reveal_strlit("> ");
        }
        match self {
            DiffEvent::Match(line) => line.clone(),
            DiffEvent::LeftOnly(line) => {
                let shown = String::from_str("< ").concat(line.as_str());
                assert(shown@ =~= rendered(self@));
                shown
            },
            DiffEvent::RightOnly(line) => {
                let shown = String::from_str("> ").concat(line.as_str());
                assert(shown@ =~= rendered(self@));
                shown
            },
        }
    }
}

} // verus!
