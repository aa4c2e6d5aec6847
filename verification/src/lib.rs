//! A verified decoder for NSKeyedArchiver-style property-list archives.
//!
//! An archive stores an object graph as a flat, index-addressed table of
//! nodes; cross references, class identity and container contents are
//! integer handles into that table. The decoder turns such an archive into
//! a plain nested value tree, with every step of the reference resolution
//! specified and proved against a mathematical model.

pub mod converter;
pub mod error;
pub mod laws;
pub mod model;
pub mod value;

pub use converter::Converter;
pub use error::ConverterError;
pub use value::Value;
