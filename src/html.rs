use vstd::prelude::*;

use crate::codegen::{gen_nodes, nodes_code, Backend, CodeGen};
use crate::hir::HIR;

verus! {

/// Node code for an HTML template written through `fmt::Formatter`.
pub struct HTMLCodeGen;

impl CodeGen for HTMLCodeGen {
    open spec fn spec_gen(&self, v: Seq<HIR>) -> Seq<char> {
        nodes_code(Backend::Html, v)
    }

    fn gen(&mut self, v: Vec<HIR>) -> (r: String) {
        gen_nodes(&Backend::Html, &v)
    }
}

/// Node code for an HTML template whose literal text loses the whitespace
/// between tags, which does not change how the page looks.
pub struct HTMLMinCodeGen;

impl CodeGen for HTMLMinCodeGen {
    open spec fn spec_gen(&self, v: Seq<HIR>) -> Seq<char> {
        nodes_code(Backend::HtmlMin, v)
    }

    fn gen(&mut self, v: Vec<HIR>) -> (r: String) {
        gen_nodes(&Backend::HtmlMin, &v)
    }
}

/// Node code for a text template written through `fmt::Formatter`.
pub struct TextCodeGen;

impl CodeGen for TextCodeGen {
    open spec fn spec_gen(&self, v: Seq<HIR>) -> Seq<char> {
        nodes_code(Backend::Text, v)
    }

    fn gen(&mut self, v: Vec<HIR>) -> (r: String) {
        gen_nodes(&Backend::Text, &v)
    }
}

} // verus!
