//! Sorting the tokens of a command line into commands, flags and options.

pub mod parser;
pub mod positions;
pub mod text;
pub mod token;

pub use parser::{ParseError, Pargs};
