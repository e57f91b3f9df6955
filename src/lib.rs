//! A small scripting language with two interchangeable surface syntaxes: a
//! terse symbolic form (a sigil for "define variable" and one for "define
//! function") and a verbose keyword form.
//!
//! Source text goes through the scanner (`scanner`), the parser (`parser`)
//! and then either the evaluator (`executor`, over the scope frames of
//! `environment`) or the packer (`surface`).
//!
//! Fixed choices of the language:
//! - the sigils are `$` (define a variable) and `#` (define a function); the
//!   built-in words are `var` and `function`, and a `Config` adds one more
//!   word for each;
//! - numbers are 64-bit signed integers: literals are runs of decimal digits
//!   and only `+` and `-` combine them, so a result that does not fit is an
//!   error rather than a rounded value;
//! - `*`, `/` and parentheses are parsed but have no evaluation: evaluating
//!   them is an error;
//! - the absent value (the result of a definition) renders as no text;
//! - calls of script functions nest at most `executor::MAX_CALL_DEPTH` deep;
//! - the evaluator reaches its host through a `Session`, which keeps a record
//!   of every advisory and native call, so that `execute`'s contract can say
//!   what was asked of the host and what followed from each reply.

pub mod ast;
pub mod config;
pub mod diagnostic;
pub mod environment;
pub mod executor;
pub mod laws;
pub mod parser;
pub mod scanner;
pub mod surface;
pub mod text;
pub mod token;
pub mod value;

pub use ast::{FactorSymbol, TermSymbol, AST};
pub use config::Config;
pub use environment::Environment;
pub use executor::{execute, Host, Session};
pub use parser::{parse, parse_block, ParseError};
pub use scanner::{ScanError, Tokenizer};
pub use surface::{pack, unpack};
pub use token::{Token, TokenTypes};
pub use value::{ExecError, Value};
