//! A template compiler for Handlebars-style templates: spans and
//! diagnostics, lowering of parsed nodes (partials, scopes, whitespace
//! control, unrolling), and code generation for several renderer backends.
use vstd::prelude::*;

pub mod codegen;
pub mod compile;
pub mod emitter;
pub mod error;
pub mod expr_list;
pub mod fixed;
pub mod fmt;
pub mod hir;
pub mod lexer;
pub mod html;
pub mod lower;
pub mod parser;
pub mod print;
pub mod reactor;
pub mod render;
pub mod scope;
pub mod span;
pub mod text;

verus! {

} // verus!
