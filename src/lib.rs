//! A codec between non-negative integers and Roman-style numerals over a
//! caller-chosen alphabet of symbols.

pub mod error;
pub mod integer;
pub mod laws;
pub mod numeral;
pub mod roman;

pub use error::ConversionError;
pub use integer::NumeralInt;
pub use roman::Roman;
