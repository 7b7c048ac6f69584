//! Reads a Content-Security-Policy header value and renders each directive on
//! its own line, tagging every source value as safe, unsafe, a plain host, or
//! malformed.

pub mod text;
pub mod value;
pub mod row;
pub mod policy;

pub use policy::{handle_line, handle_line_with, pretty_print, render};
pub use row::Row;
pub use text::{split_pieces, split_words, strip_header};
pub use value::{Value, ValueType};
