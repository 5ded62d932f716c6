use vstd::prelude::*;

verus! {

/// A lowered template node. Expressions are host-language source text,
/// embedded verbatim in the generated renderer.
#[derive(Debug, PartialEq, Eq)]
pub enum HIR {
    /// Host code run for its effect.
    Local(String),
    /// Literal text, written as it stands.
    Lit(String),
    /// An expression whose value is HTML-escaped when written.
    Safe(String),
    /// An expression written through the host's display contract, unescaped.
    Expr(String),
    Each(Box<Each>),
    IfElse(Box<IfElse>),
}

/// A loop: `body` runs once for each item that `args` yields, bound to `expr`.
#[derive(Debug, PartialEq, Eq)]
pub struct Each {
    pub args: String,
    pub expr: String,
    pub body: Vec<HIR>,
}

/// A conditional chain: the first branch whose condition holds runs, else `els`.
#[derive(Debug, PartialEq, Eq)]
pub struct IfElse {
    pub ifs: (String, Vec<HIR>),
    pub if_else: Vec<(String, Vec<HIR>)>,
    pub els: Option<Vec<HIR>>,
}

/// A lowered node as contracts see it: texts as character sequences.
pub ghost enum HirV {
    Local(Seq<char>),
    Lit(Seq<char>),
    Safe(Seq<char>),
    Expr(Seq<char>),
    /// Collection, pattern, body.
    Each(Seq<char>, Seq<char>, Seq<HirV>),
    /// Condition and body, `else if` branches, `else` body.
    IfElse(Seq<char>, Seq<HirV>, Seq<(Seq<char>, Seq<HirV>)>, Option<Seq<HirV>>),
}

pub open spec fn hir_view(h: HIR) -> HirV
    decreases h,
{
    match h {
        HIR::Local(a) => HirV::Local(a@),
        HIR::Lit(a) => HirV::Lit(a@),
        HIR::Safe(a) => HirV::Safe(a@),
        HIR::Expr(a) => HirV::Expr(a@),
        HIR::Each(e) => HirV::Each(e.args@, e.expr@, hirs_view(e.body@)),
        HIR::IfElse(i) => HirV::IfElse(
            i.ifs.0@,
            hirs_view(i.ifs.1@),
            branches_view(i.if_else@),
            match i.els {
                Some(els) => Some(hirs_view(els@)),
                None => None,
            },
        ),
    }
}

pub open spec fn hirs_view(s: Seq<HIR>) -> Seq<HirV>
    decreases s,
{
    if s.len() == 0 {
        Seq::empty()
    } else {
        hirs_view(s.drop_last()).push(hir_view(s.last()))
    }
}

pub open spec fn branches_view(s: Seq<(String, Vec<HIR>)>) -> Seq<(Seq<char>, Seq<HirV>)>
    decreases s,
{
    if s.len() == 0 {
        Seq::empty()
    } else {
        branches_view(s.drop_last()).push((s.last().0@, hirs_view(s.last().1@)))
    }
}

pub proof fn lemma_hirs_view_push(s: Seq<HIR>, h: HIR)
    ensures
        hirs_view(s.push(h)) == hirs_view(s).push(hir_view(h)),
{
    assert(s.push(h).drop_last() =~= s);
}

/// Output mode of a template.
#[derive(Clone, Copy, Debug, PartialEq, Eq, Structural)]
pub enum Mode {
    Text,
    HTML,
}

/// The host type a renderer is generated for, and how it renders.
pub struct Struct {
    /// Name of the host type.
    pub ident: String,
    /// Path of the template source.
    pub path: String,
    pub mode: Mode,
    /// Message of the error response when rendering fails.
    pub err_msg: String,
    /// Whether the web-response adapter is generated too.
    pub responder: bool,
}

pub open spec fn impl_code(ident: Seq<char>, tr: Seq<char>, body: Seq<char>) -> Seq<char> {
    "impl "@ + tr + " for "@ + ident + " {"@ + body + "}"@
}

impl Struct {
    /// `impl tr for Ident { body }`.
    pub fn implement_head(&self, tr: &str, body: &str) -> (r: String)
        ensures
            r@ == impl_code(self.ident@, tr@, body@),
    {
        let mut r = String::from_str("impl ");
        r.append(tr);
        r.append(" for ");
        r.append(self.ident.as_str());
        r.append(" {");
        r.append(body);
        r.append("}");
        r
    }
}

} // verus!
