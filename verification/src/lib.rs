//! Line-based difference of two texts.
//!
//! The library fills the table of longest-common-subsequence lengths of two
//! sequences of lines and walks it back from its last cell to tell, line by
//! line, what the two texts share and where they part.

pub mod event;
pub mod laws;
pub mod model;
pub mod subsequence;
pub mod table;
pub mod walk;

pub use event::DiffEvent;
pub use table::longest_common_subsequence;
pub use walk::{diff, walk, walk_from};
