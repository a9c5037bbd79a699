pub mod ast;
pub mod compiler;
pub mod dump;
pub mod generator;
pub mod runtime;
pub mod text;
pub mod resolver;
pub mod parser;
