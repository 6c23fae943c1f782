//! The characters the frame is drawn with, the labels of the columns, and the
//! number of bytes in a row.

use vstd::prelude::*;

verus! {

pub const VERTICAL_DIVIDER: char = '│';

pub const HORIZONTAL_DIVIDER: char = '─';

pub const TOP_LEFT_CORNER: char = '┌';

pub const TOP_JUNCTION: char = '┬';

pub const TOP_RIGHT_CORNER: char = '┐';

pub const BOTTOM_LEFT_CORNER: char = '└';

pub const BOTTOM_JUNCTION: char = '┴';

pub const BOTTOM_RIGHT_CORNER: char = '┘';

/// The number of bytes in one row of the table.
pub const COLUMNS: usize = 16;

pub const ADDRESS_LABEL: &'static str = "address";

pub const ASCII_LABEL: &'static str = "ascii";

/// Stands for a byte of the ASCII range that has no printable character.
pub const NON_PRINTABLE_CHARACTER: char = '•';

/// Stands for a byte outside the ASCII range.
pub const NON_ASCII_CHARACTER: char = '×';

} // verus!
