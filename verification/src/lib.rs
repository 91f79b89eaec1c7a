//! A small interpreter for an eight-instruction tape language.
//!
//! Source text is cleaned and scanned into [`Token`]s by a [`Parser`]; a
//! [`Runtime`] then executes the tokens against a growable tape of wrapping
//! 32-bit cells.  Every executable function carries a contract over the
//! mathematical models defined next to it, and the contracts are proved.
//!
//! Three choices are fixed here.  Scanning is lenient: characters that are
//! no instruction are passed over.  Cells are `i32` and wrap.  A `,` takes
//! the next character of the input handed to the interpreter and faults
//! when none is left.

pub mod decimal;
pub mod machine;
pub mod parser;
pub mod runtime;
pub mod source;
pub mod token;

pub use machine::{Fault, Machine, OutputMode};
pub use parser::Parser;
pub use runtime::Runtime;
pub use token::Token;
