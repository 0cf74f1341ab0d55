//! The viewport row: placing panels, scrolling them, and keeping their scroll
//! positions in step.

pub mod follow;
pub mod layout;
pub mod names;
pub mod script;
pub mod row;
