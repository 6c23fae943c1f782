//! Renders a run of bytes as a framed table: an address column, a data column
//! in a selectable numeric base, and a column of printable glyphs.

pub mod constant;
pub mod error;
pub mod numeral;
pub mod options;
pub mod pprint;
pub mod table;
pub mod text;
pub mod utils;
