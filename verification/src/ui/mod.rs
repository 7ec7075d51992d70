//! What the terminal shows and how input reaches the state: layout
//! arithmetic, key and mouse mapping, and the help table.

pub mod input;
pub mod layout;
pub mod mouse;
pub mod panes;
