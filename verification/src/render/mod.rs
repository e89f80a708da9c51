//! Output: the table of ports, and the decisions of watch mode.

pub mod json;
pub mod table;
pub mod watch;
