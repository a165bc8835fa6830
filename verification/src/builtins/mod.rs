//! The built-in objects and functions.
pub mod helpers;
pub mod array;
pub mod error;
pub mod dispatch;
pub mod string;
pub mod math;
pub mod console;
pub mod boolean;
pub mod global;
pub mod number;
pub mod object;
pub mod function;
pub mod maps;
pub mod date;
pub mod promise;
pub mod json;
pub mod generator;
