//! Anarchy: a small expression language for per-pixel procedural images.
//!
//! Source text is parsed once into a tree whose identifiers are resolved to
//! dense slot numbers; the tree is then evaluated many times against an
//! [`ExecutionContext`] that holds one optional value per slot.
//!
//! Numbers are IEEE-754 single-precision values carried as their bit
//! patterns. The arithmetic on them is supplied by the caller as a function
//! from a [`NumOp`] and operand bits to result bits; everything else (control
//! flow, scoping, tuples, errors and their locations) is implemented and
//! verified here.
use vstd::prelude::*;

pub mod ast;
pub mod context;
pub mod error;
pub mod grammar;
pub mod eval;
pub mod laws;
pub mod lexer;
pub mod numeric;
pub mod parser;
pub mod semantics;
pub mod value;

pub use context::{ExecutionContext, ExecutionContextLUT, VariableKey};
pub use error::{LanguageError, LanguageErrorType, Location, ParseError, Position, SyntaxError, UntrackedValue};
pub use eval::{execute, ParsedLanguage};
pub use numeric::NumOp;
pub use parser::{parse, parse_tokens};
pub use value::{Value, ValueType};
