//! A helper library to assist with mutating a struct based on the parameters
//! passed in command-line arguments.
//!
//! Raw argument strings are classified into typed tokens (short flags, long
//! flags, and bare values), and a driving loop hands each token to a
//! user-supplied callback together with a cursor over the remaining tokens,
//! so the callback can pull a flag's value out of band.

pub mod cursor;
pub mod token;

pub use cursor::ArgsError;
pub use cursor::Arguments;
pub use cursor::err;
pub use token::Argument;
pub use token::ArgumentType;
pub use token::OptionType;
pub use token::tokenize;
