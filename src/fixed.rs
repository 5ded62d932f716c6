use vstd::prelude::*;

use crate::codegen::{gen_nodes, nodes_code, Backend, CodeGen};
use crate::hir::{impl_code, Struct, HIR};

verus! {

/// Code of the fixed-buffer renderer around the node code `nodes`.
pub open spec fn fixed_call_code(nodes: Seq<char>) -> Seq<char> {
    "fn call(&self, buf: &mut [u8]) -> Option<usize> { let written: Option<usize> = 'write: { let mut buf_cur: usize = 0; "@
        + nodes + " Some(buf_cur) }; if written.is_none() { buf.fill(0); } written }"@
}

/// Generates a renderer into a caller's fixed-capacity byte buffer, with no
/// allocation: every write is checked against the room left, and the first
/// one that does not fit ends the render with `None` and zeroes the whole
/// buffer, so no partial render survives.
pub struct FixedCodeGen<'a, T: CodeGen> {
    codegen: T,
    s: &'a Struct,
}

impl<'a, T: CodeGen> FixedCodeGen<'a, T> {
    pub closed spec fn spec_codegen(&self) -> T {
        self.codegen
    }

    pub closed spec fn spec_struct(&self) -> &'a Struct {
        self.s
    }

    pub fn new<'n>(codegen: T, s: &'n Struct) -> (r: FixedCodeGen<'n, T>)
        ensures
            r.spec_codegen() == codegen,
            r.spec_struct() == s,
    {
        FixedCodeGen { codegen, s }
    }

    fn template(&mut self, nodes: Vec<HIR>, tokens: &mut String)
        ensures
            final(tokens)@ == old(tokens)@ + impl_code(
                old(self).s.ident@,
                "yarte::TemplateFixedTrait"@,
                fixed_call_code(old(self).codegen.spec_gen(nodes@)),
            ),
            final(self).s == old(self).s,
    {
        let nodes = self.codegen.gen(nodes);
        let mut body = String::from_str(
            "fn call(&self, buf: &mut [u8]) -> Option<usize> { let written: Option<usize> = 'write: { let mut buf_cur: usize = 0; ",
        );
        body.append(nodes.as_str());
        body.append(" Some(buf_cur) }; if written.is_none() { buf.fill(0); } written }");
        let head = self.s.implement_head("yarte::TemplateFixedTrait", body.as_str());
        tokens.append(head.as_str());
    }
}

impl<'a, T: CodeGen> CodeGen for FixedCodeGen<'a, T> {
    open spec fn spec_gen(&self, v: Seq<HIR>) -> Seq<char> {
        impl_code(
            self.spec_struct().ident@,
            "yarte::TemplateFixedTrait"@,
            fixed_call_code(self.spec_codegen().spec_gen(v)),
        )
    }

    fn gen(&mut self, v: Vec<HIR>) -> (r: String) {
        let mut tokens = String::new();
        self.template(v, &mut tokens);
        proof {
            assert(tokens@ =~= old(self).spec_gen(v@));
        }
        tokens
    }
}

/// Node code for a text template rendered into a fixed buffer through the
/// helpers of the crate named by the field.
pub struct TextFixedCodeGen(pub &'static str);

impl CodeGen for TextFixedCodeGen {
    open spec fn spec_gen(&self, v: Seq<HIR>) -> Seq<char> {
        nodes_code(Backend::TextFixed(self.0), v)
    }

    fn gen(&mut self, v: Vec<HIR>) -> (r: String) {
        gen_nodes(&Backend::TextFixed(self.0), &v)
    }
}

/// Node code for an HTML template rendered into a fixed buffer: `Safe`
/// expressions go through the escaping helper.
pub struct HTMLFixedCodeGen(pub &'static str);

impl CodeGen for HTMLFixedCodeGen {
    open spec fn spec_gen(&self, v: Seq<HIR>) -> Seq<char> {
        nodes_code(Backend::HtmlFixed(self.0), v)
    }

    fn gen(&mut self, v: Vec<HIR>) -> (r: String) {
        gen_nodes(&Backend::HtmlFixed(self.0), &v)
    }
}

} // verus!
