//! Signed fixed-width integer conversion between radixes 2, 8, 10 and 16.

pub mod digits;
pub mod format;
pub mod laws;
pub mod num;
pub mod parse;
pub mod text;
pub mod width;
