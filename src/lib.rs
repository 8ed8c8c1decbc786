//! Conversions between integers and binary digit strings, with markup
//! fragments that explain each conversion step by step.

pub mod numeral;
pub mod explanation;
pub mod decimal;
pub mod division;

pub use division::render_decimal_viz;
pub use explanation::render_explanation;
pub use numeral::{binary_to_decimal, decimal_to_binary, parse_binary, BinaryError};
