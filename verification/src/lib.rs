//! A text-editing core over a rope: grapheme-aware cursors, the editing
//! operations they offer together with the diff each edit produces, and a
//! branching history of buffer revisions.

pub mod cursor;
pub mod delete;
pub mod diff;
pub mod graphemes;
pub mod indent;
pub mod insert;
pub mod keys;
pub mod movement;
pub mod reconcile;
pub mod text;
pub mod tree;
pub mod viewport;
pub mod watch;

pub use cursor::Cursor;
pub use diff::{DeleteOperation, OpaqueDiff};
pub use graphemes::{CharIndex, TAB_WIDTH};
pub use movement::Direction;
pub use tree::EditTree;
