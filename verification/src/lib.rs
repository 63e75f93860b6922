//! A duration value codec: a permissive parser that accepts integers,
//! floats (decomposed into whole and fractional parts) and unit-suffixed
//! strings, and a family of deterministic formatters that render the
//! normalized millisecond-resolution value back out.

mod duration;
mod errors;
mod format;
pub mod laws;
mod parse;
mod text;

pub use duration::{Duration, ExtDuration};
pub use errors::{FormatError, ParseError};
pub use format::{format_human_opt, format_millis, format_secs, to_human_string};
pub use parse::{from_float_parts, from_int_secs, parse_str};
pub use text::u64_to_string;
