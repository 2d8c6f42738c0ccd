//! Pure text logic over a rope: word motions, text objects, the buffer's
//! property store, and the handles that address buffers.

pub mod buffer;
pub mod chars;
pub mod cursor;
pub mod edits;
pub mod motions;
pub mod move_kind;
pub mod props;
pub mod rope;
pub mod spans;
pub mod text_object;
pub mod yank;
