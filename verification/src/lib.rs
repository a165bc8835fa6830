pub mod number;
pub mod ast;
pub mod value;
pub mod lexer;
pub mod parser;
pub mod interpreter;
pub mod builtins;
pub mod text;
pub mod eval;
pub mod expr;
pub mod setup;
pub mod table;
pub mod laws;
pub mod clock;
