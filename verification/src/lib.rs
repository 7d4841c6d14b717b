//! A small domain-specific language for describing web-scraping scripts,
//! compiled in three stages: grammar-driven parsing (text to concrete parse
//! tree), AST construction and validation (parse tree to typed `Program`),
//! and code generation (`Program` to a sequence of DOM-traversal and
//! extraction instructions, rendered as text).

pub mod ast;
pub mod codegen;
pub mod cst;
pub mod error;
pub mod grammar;
pub mod text;
