//! Evaluation core of a small, dynamically typed scripting language in the
//! style of Lua.
//!
//! A program arrives as a syntax tree ([`ast::Block`]). [`interp::run`] sets up
//! the global table and hands back a [`interp::Machine`]; every call of
//! [`interp::Machine::step`] performs one transition and says what the host
//! has to do next: go on, print a line, or compute on two numbers. A number
//! is held as the bit pattern of an IEEE-754 double. Comparing and negating
//! such patterns is done here; rounding arithmetic and the decimal text of a
//! number are asked from the host.
//!
//! [`semantics`] tells what a program means as a walk over its tree, and
//! [`agreement`] proves that the machine arrives where the walk does.
//! [`laws`] holds what is true of name resolution and of single transitions
//! whatever the program.
pub mod agreement;
pub mod ast;
pub mod env;
pub mod host;
pub mod interp;
pub mod laws;
pub mod semantics;
pub mod value;
