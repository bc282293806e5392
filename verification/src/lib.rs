//! Analysis of compiler type-layout reports.
//!
//! The library reads an indentation-structured report of type sizes: [`reader`]
//! normalizes a prefixed raw dump, [`parser`] turns the normalized text into
//! the structured model of [`schema`], [`transformer`] applies a configurable
//! pipeline of list transformations ([`options`] is its configuration,
//! [`patterns`] its pattern matching), and [`formatter`] renders the result
//! as display text.  [`laws`] holds the proved properties that relate the
//! stages to each other.

pub mod formatter;
pub mod laws;
pub mod options;
pub mod parser;
pub mod patterns;
pub mod reader;
pub mod schema;
pub mod transformer;
