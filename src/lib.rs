//! A declarative command-line argument parser: a grammar of flags, valued
//! options and nested subcommands is built fluently, then matched against a
//! raw token list in one left-to-right pass.
pub mod grammar;
pub mod laws;
pub mod matches;
pub mod semantics;
pub mod text;

pub use grammar::{AnyValue, Arg, ArgParser, Validator};
pub use matches::{ArgMatches, ParseError};
