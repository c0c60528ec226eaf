//! Utilities for interacting with the console.
use vstd::prelude::*;

pub mod ansi_parsing;
pub mod console_color;
pub mod console_elem;
pub mod text;

pub use ansi_parsing::{parse_ansi_bytes, parse_ansi_type, take_one_argument, AnsiCodeType};
pub use console_elem::{
    append_bytes, decode_element, decode_text, for_each_console_element, ConsoleElem,
    DecodeOutcome, IterElements,
};
pub use console_color::{Color, ColorParseError, PaletteLookup};

verus! {

/// The escape sequence that resets every style attribute.
pub const RESET_CODE: &'static str = "\u{001B}[0m";

} // verus!
