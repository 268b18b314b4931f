//! What the screen needs and the library can say without drawing: the
//! characters of a frame, the commands behind the keys, and the error of a
//! failed call.

pub mod chars;
pub mod error;
pub mod input;
