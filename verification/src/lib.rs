//! A compact, self-describing binary encoding for a flat stream of tagged
//! display items, with a builder that appends items and skippable sublists
//! to a byte buffer and a streaming decoder that walks the buffer.
//!
//! The layout of every value is the machine's own: integers are stored in
//! native byte order, sizes and counts as machine words.

pub mod backend;
pub mod item;
pub mod iter;
pub mod list;
pub mod stream;
pub mod wire;
