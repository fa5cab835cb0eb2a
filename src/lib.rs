//! Reads the command-line description that tagged comments give a shell script.
pub mod driver;
pub mod events;
pub mod grammar;
pub mod laws;
pub mod param;
pub mod text;

pub use driver::{parse, take_comment_lines, Event, ParseError};
pub use events::{parse_line, EventData, EventScope};
pub use grammar::{parse_flag_param, parse_option_param, parse_positional_param};
pub use param::{FlagOptionParam, ParamData, PositionalParam};
