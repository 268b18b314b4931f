//! The listing of a directory and the cursor that moves through it.

pub mod cursor;
pub mod entry;
