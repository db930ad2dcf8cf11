//! A seven-segment digital clock for character-cell terminals.
//!
//! Widgets do not write to a terminal themselves: each drawing operation
//! returns the sequence of [`Paint`]s (a character at a cell) that the caller
//! sends, in order, to whatever cell-addressable sink it uses.
pub mod screen;
pub mod widget;
pub mod seven_digit;
pub mod dot;
pub mod time_printer;

pub use screen::Paint;
pub use widget::Widget;
pub use seven_digit::SevenDigit;
pub use dot::Dot;
pub use time_printer::{TimePrinter, clock_digits};
