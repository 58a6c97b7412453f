//! A small, dependency-free command-line toolkit: declarative argument
//! parsing with subcommands, help rendering, and plain-string terminal
//! utilities, with the parsing and rendering logic verified.

pub mod args;
pub mod command;
pub mod help;
pub mod laws;
pub mod log;
pub mod parse;
pub mod progress;
pub mod strutil;
pub mod style;
pub mod table;
pub mod term;
pub mod unicode;

pub use args::Args;
pub use command::{App, Arg, ArgGroup, ArgMatches, ArgValue, Command, CommandError, CommandResult};
pub use log::{Level, Logger};
pub use progress::{ProgressBar, ProgressStyle};
pub use style::{Color, Style, StyledString};
pub use table::{Alignment, BoxStyle, Table};
pub use term::Terminal;
pub use unicode::display_width;

use vstd::prelude::*;

verus! {

/// Library version
pub const VERSION: &'static str = "0.1.10";

/// One-line banner with the library's name
pub const LOGO: &'static str = "zfish - a small command-line toolkit";

} // verus!
