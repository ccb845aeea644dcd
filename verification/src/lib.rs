//! A form-fuzzing load generator: a small line-oriented language describes
//! the fields of a form, a generator draws random values for them, and an
//! engine decides when the next submission may be sent.

pub mod text;
pub mod field;
pub mod params;
pub mod parser;
pub mod config;
pub mod render;
pub mod generator;
pub mod engine;
pub mod scraper;

pub use crate::field::Parameter;
pub use crate::scraper as crtsh;
