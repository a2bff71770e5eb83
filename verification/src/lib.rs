//! The in-memory text core of an editor: a gap-backed character store that is
//! addressed by line and column, a cursor that moves over it, and the buffer
//! that ties the two together.

pub mod buffer;
pub mod chars;
pub mod cursor;
pub mod gap_store;
mod line_index;
pub mod path;
pub mod position;
pub mod text;
pub mod token;
pub mod type_detection;
