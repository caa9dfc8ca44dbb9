//! Web searches from the command line: a catalog of named search engines,
//! the URL that an engine and a query make, and the picking of an engine by
//! the beginning of its name.

pub mod args;
pub mod catalog;
pub mod engines;
pub mod error;
pub mod names;
pub mod selector;
pub mod template;
pub mod term;
pub mod text;

pub use args::{get_input, resolve, usage, Answer, ArgsError, ArgsStep, SearchArgs};
pub use error::SearchError;
