//! Re-colouring of a byte stream that is on its way to a terminal.
pub mod console;
pub mod presets;
pub mod sizing;
pub mod stream_colors;
