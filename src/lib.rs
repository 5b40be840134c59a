//! A personal task list kept as lines of text.
//!
//! Each task is one line: a checkbox marker (`[ ]` or `[*]`), a space, and the
//! description. The library holds the list in memory, validates it, applies the
//! list operations to it and renders the listing and the file text; reading and
//! writing the file is left to the caller.

pub mod laws;
pub mod model;
pub mod record;
pub mod text;
pub mod todo;

pub use todo::{Todo, TodoError};
