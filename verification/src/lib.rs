//! Cursors over byte sources that are stored either as one contiguous buffer
//! or as a sequence of disjoint chunks.
//!
//! A [`Cursor`] exposes one chunk at a time and steps to the neighbouring
//! non-empty chunk on request, so that a scanner can walk a rope or a stream
//! of buffers without first copying it into one allocation.
pub mod chunks;
pub mod cursor;
pub mod flat;
pub mod forward;
pub mod rope;
pub mod rope_view;

pub use cursor::Cursor;
pub use cursor::IntoCursor;
pub use forward::Bytes;
pub use forward::Utf8Bytes;
pub use rope::RopeyCursor;
