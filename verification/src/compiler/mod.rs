//! A first, smaller compiler from Python to Rust: it loads the syntax tree into its own
//! expressions and statements, gives every variable of each function a name `__v<k>`, and
//! writes the program as Rust tokens, the top-level variables declared first.
pub mod context;
pub mod expression;
pub mod statement;
pub mod bound;
pub mod compile;
