//! A small expression language: a recursive-descent parser from source text
//! to syntax trees, and a tree-walking evaluator over a chain of scopes.
//!
//! Numbers of the language are 64-bit signed integers: a number literal is an
//! optional `-` and decimal digits, division truncates toward zero, and
//! arithmetic that leaves the range (or divides by zero) is an invalid
//! operation. Positions in source text count characters.
pub mod operators;
pub mod text;
pub mod tokens;
pub mod value;
pub mod expr;
pub mod env;
pub mod interp;
pub mod lexical;
pub mod grammar;
pub mod laws;

pub use operators::{BinaryOperator, UnaryOperator};
pub use value::{SpecValue, Value};
pub use expr::{Expr, SpecExpr};
pub use env::Env;
pub use interp::{InterpError, InterpErrorReason, InterpErrorSource};
pub use tokens::{tokenize, Token, TokenType};
pub use lexical::ParseError;
pub use grammar::parse_language;
pub use interp::interpret_all;
