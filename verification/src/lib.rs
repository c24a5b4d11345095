//! Core of a terminal hex viewer/editor: a hex document model (bytes laid
//! out into fixed-width addressed lines with a nibble-level cursor and
//! nibble-level edits) and a double-buffered terminal cell grid with
//! differential redraw.
//!
//! All terminal and file I/O lives outside this crate; the library only
//! computes lines, cursor transitions, cell grids, patch lists and command
//! streams, each with a proved contract.

pub mod hex;
pub mod hex_view;
pub mod render;
pub mod screen_state;
pub mod terminal_buffer;
