use vstd::prelude::*;
use vstd::utf8::encode_utf8;

use crate::hir::{Each, IfElse, HIR};
use crate::text::{decimal, min_text, minify_text, push_decimal, push_str_literal, str_literal};

verus! {

/// The rendering contract a backend emits code for.
pub enum Backend {
    /// Writes HTML into a `fmt::Formatter`; `Safe` expressions are escaped.
    Html,
    /// As `Html`, with the whitespace between tags of literal text removed.
    HtmlMin,
    /// Writes text into a `fmt::Formatter`; nothing is escaped.
    Text,
    /// Writes HTML into a fixed byte buffer through the helpers of `parent`.
    HtmlFixed(&'static str),
    /// Writes text into a fixed byte buffer through the helpers of `parent`.
    TextFixed(&'static str),
}

/// Length in bytes of the UTF-8 form of `a`, as `str::len` reports it.
pub open spec fn byte_len(a: Seq<char>) -> usize {
    encode_utf8(a).len() as usize
}

/// Code for a literal written into a fixed buffer: a bounds check against the
/// remaining capacity, then the copy.
pub open spec fn fixed_lit_code(a: Seq<char>) -> Seq<char> {
    let n = decimal(byte_len(a) as nat);
    "if buf.len() < buf_cur + "@ + n + " { break 'write None; } buf[buf_cur..buf_cur + "@ + n
        + "].copy_from_slice("@ + str_literal(a) + ".as_bytes()); buf_cur += "@ + n + ";"@
}

/// Code for an expression written into a fixed buffer with `parent::helper`.
pub open spec fn fixed_expr_code(parent: Seq<char>, helper: Seq<char>, a: Seq<char>) -> Seq<
    char,
> {
    "match "@ + parent + "::"@ + helper + "::render(&("@ + a + "), &mut buf[buf_cur..]) { Some(n) => buf_cur += n, None => break 'write None, }"@
}

/// Code for one leaf node (anything but `Each` and `IfElse`).
pub open spec fn leaf_code(b: Backend, n: HIR) -> Seq<char> {
    match n {
        HIR::Local(a) => a@,
        HIR::Lit(a) => match b {
            Backend::Html | Backend::Text => "_fmt.write_str("@ + str_literal(a@) + ")?;"@,
            Backend::HtmlMin => "_fmt.write_str("@ + str_literal(min_text(a@)) + ")?;"@,
            _ => fixed_lit_code(a@),
        },
        HIR::Safe(a) => match b {
            Backend::Html | Backend::HtmlMin => "::yarte::Render::render(&("@ + a@ + "), _fmt)?;"@,
            Backend::Text => "::std::fmt::Display::fmt(&("@ + a@ + "), _fmt)?;"@,
            Backend::HtmlFixed(p) => fixed_expr_code(p@, "RenderFixed"@, a@),
            Backend::TextFixed(p) => fixed_expr_code(p@, "RenderSafe"@, a@),
        },
        HIR::Expr(a) => match b {
            Backend::Html | Backend::HtmlMin | Backend::Text => "::std::fmt::Display::fmt(&("@ + a@ + "), _fmt)?;"@,
            Backend::HtmlFixed(p) | Backend::TextFixed(p) => fixed_expr_code(
                p@,
                "RenderSafe"@,
                a@,
            ),
        },
        _ => Seq::empty(),
    }
}

/// Code for a sequence of nodes: the code of each node, in order.
pub open spec fn nodes_code(b: Backend, v: Seq<HIR>) -> Seq<char>
    decreases v,
{
    if v.len() == 0 {
        Seq::empty()
    } else {
        nodes_code(b, v.drop_last()) + node_code(b, v.last())
    }
}

/// Code for one node; a loop becomes a `for`, a conditional an `if` chain.
pub open spec fn node_code(b: Backend, n: HIR) -> Seq<char>
    decreases n,
{
    match n {
        HIR::Each(e) => "for "@ + e.expr@ + " in "@ + e.args@ + " {"@ + nodes_code(b, e.body@)
            + "}"@,
        HIR::IfElse(i) => "if "@ + i.ifs.0@ + " {"@ + nodes_code(b, i.ifs.1@) + "}"@
            + branches_code(b, i.if_else@) + match i.els {
            Some(els) => " else {"@ + nodes_code(b, els@) + "}"@,
            None => Seq::empty(),
        },
        _ => leaf_code(b, n),
    }
}

/// Code for the `else if` branches of a conditional chain.
pub open spec fn branches_code(b: Backend, s: Seq<(String, Vec<HIR>)>) -> Seq<char>
    decreases s,
{
    if s.len() == 0 {
        Seq::empty()
    } else {
        branches_code(b, s.drop_last()) + " else if "@ + s.last().0@ + " {"@ + nodes_code(
            b,
            s.last().1@,
        ) + "}"@
    }
}

fn push_fixed_expr(out: &mut String, parent: &'static str, helper: &str, a: &String)
    ensures
        final(out)@ == old(out)@ + fixed_expr_code(parent@, helper@, a@),
{
    out.append("match ");
    out.append(parent);
    out.append("::");
    out.append(helper);
    out.append("::render(&(");
    out.append(a.as_str());
    out.append("), &mut buf[buf_cur..]) { Some(n) => buf_cur += n, None => break 'write None, }");
}

fn push_leaf(out: &mut String, b: &Backend, n: &HIR)
    requires
        !(n is Each),
        !(n is IfElse),
    ensures
        final(out)@ == old(out)@ + leaf_code(*b, *n),
{
    match n {
        HIR::Local(a) => out.append(a.as_str()),
        HIR::Lit(a) => match b {
            Backend::Html | Backend::Text => {
                out.append("_fmt.write_str(");
                push_str_literal(out, a.as_str());
                out.append(")?;");
            },
            Backend::HtmlMin => {
                let m = minify_text(a.as_str());
                out.append("_fmt.write_str(");
                push_str_literal(out, m.as_str());
                out.append(")?;");
            },
            _ => {
                let len = a.as_str().len();
                out.append("if buf.len() < buf_cur + ");
                push_decimal(out, len);
                out.append(" { break 'write None; } buf[buf_cur..buf_cur + ");
                push_decimal(out, len);
                out.append("].copy_from_slice(");
                push_str_literal(out, a.as_str());
                out.append(".as_bytes()); buf_cur += ");
                push_decimal(out, len);
                out.append(";");
            },
        },
        HIR::Safe(a) => match b {
            Backend::Html | Backend::HtmlMin => {
                out.append("::yarte::Render::render(&(");
                out.append(a.as_str());
                out.append("), _fmt)?;");
            },
            Backend::Text => {
                out.append("::std::fmt::Display::fmt(&(");
                out.append(a.as_str());
                out.append("), _fmt)?;");
            },
            Backend::HtmlFixed(p) => push_fixed_expr(out, p, "RenderFixed", a),
            Backend::TextFixed(p) => push_fixed_expr(out, p, "RenderSafe", a),
        },
        HIR::Expr(a) => match b {
            Backend::Html | Backend::HtmlMin | Backend::Text => {
                out.append("::std::fmt::Display::fmt(&(");
                out.append(a.as_str());
                out.append("), _fmt)?;");
            },
            Backend::HtmlFixed(p) | Backend::TextFixed(p) => push_fixed_expr(
                out,
                p,
                "RenderSafe",
                a,
            ),
        },
        _ => {},
    }
    proof {
        assert(final(out)@ =~= old(out)@ + leaf_code(*b, *n));
    }
}

/// Appends the code for `v` to `out`.
pub fn push_nodes(out: &mut String, b: &Backend, v: &Vec<HIR>)
    ensures
        final(out)@ == old(out)@ + nodes_code(*b, v@),
    decreases v@,
{
    let ghost start = out@;
    let mut i: usize = 0;
    while i < v.len()
        invariant
            i <= v@.len(),
            out@ == start + nodes_code(*b, v@.subrange(0, i as int)),
        decreases v@.len() - i,
    {
        proof {
            assert(decreases_to!(v@ => v@[i as int]));
        }
        push_node(out, b, &v[i]);
        proof {
            let sub = v@.subrange(0, i as int + 1);
            assert(sub.drop_last() =~= v@.subrange(0, i as int));
            assert(sub.last() == v@[i as int]);
            assert(out@ =~= start + nodes_code(*b, sub));
        }
        i = i + 1;
    }
    proof {
        assert(v@.subrange(0, i as int) =~= v@);
    }
}

/// Appends the code for `n` to `out`.
pub fn push_node(out: &mut String, b: &Backend, n: &HIR)
    ensures
        final(out)@ == old(out)@ + node_code(*b, *n),
    decreases n,
{
    match n {
        HIR::Each(e) => push_each(out, b, e),
        HIR::IfElse(i) => push_if_else(out, b, i),
        _ => push_leaf(out, b, n),
    }
}

fn push_each(out: &mut String, b: &Backend, e: &Each)
    ensures
        final(out)@ == old(out)@ + "for "@ + e.expr@ + " in "@ + e.args@ + " {"@ + nodes_code(
            *b,
            e.body@,
        ) + "}"@,
    decreases e,
{
    let ghost start = out@;
    out.append("for ");
    out.append(e.expr.as_str());
    out.append(" in ");
    out.append(e.args.as_str());
    out.append(" {");
    proof {
        assert(decreases_to!(e.body => e.body@));
    }
    push_nodes(out, b, &e.body);
    out.append("}");
    proof {
        assert(out@ =~= start + "for "@ + e.expr@ + " in "@ + e.args@ + " {"@ + nodes_code(
            *b,
            e.body@,
        ) + "}"@);
    }
}

fn push_if_else(out: &mut String, b: &Backend, i: &IfElse)
    ensures
        final(out)@ == old(out)@ + "if "@ + i.ifs.0@ + " {"@ + nodes_code(*b, i.ifs.1@) + "}"@
            + branches_code(*b, i.if_else@) + match i.els {
            Some(els) => " else {"@ + nodes_code(*b, els@) + "}"@,
            None => Seq::empty(),
        },
    decreases i,
{
    let ghost start = out@;
    out.append("if ");
    out.append(i.ifs.0.as_str());
    out.append(" {");
    proof {
        assert(decreases_to!(i.ifs.1 => i.ifs.1@));
    }
    push_nodes(out, b, &i.ifs.1);
    out.append("}");
    let ghost mid = out@;
    proof {
        assert(decreases_to!(i.if_else => i.if_else@));
    }
    push_branches(out, b, &i.if_else);
    let ghost mid2 = out@;
    match &i.els {
        Some(els) => {
            out.append(" else {");
            proof {
                assert(decreases_to!(*els => els@));
            }
            push_nodes(out, b, els);
            out.append("}");
        },
        None => {},
    }
    proof {
        assert(mid =~= start + "if "@ + i.ifs.0@ + " {"@ + nodes_code(*b, i.ifs.1@) + "}"@);
        assert(out@ =~= mid2 + match i.els {
            Some(els) => " else {"@ + nodes_code(*b, els@) + "}"@,
            None => Seq::empty(),
        });
        assert(out@ =~= start + "if "@ + i.ifs.0@ + " {"@ + nodes_code(*b, i.ifs.1@) + "}"@
            + branches_code(*b, i.if_else@) + match i.els {
            Some(els) => " else {"@ + nodes_code(*b, els@) + "}"@,
            None => Seq::empty(),
        });
    }
}

fn push_branches(out: &mut String, b: &Backend, s: &Vec<(String, Vec<HIR>)>)
    ensures
        final(out)@ == old(out)@ + branches_code(*b, s@),
    decreases s@,
{
    let ghost start = out@;
    let mut i: usize = 0;
    while i < s.len()
        invariant
            i <= s@.len(),
            out@ == start + branches_code(*b, s@.subrange(0, i as int)),
        decreases s@.len() - i,
    {
        let (cond, body) = &s[i];
        out.append(" else if ");
        out.append(cond.as_str());
        out.append(" {");
        proof {
            assert(decreases_to!(s@ => s@[i as int]));
            assert(decreases_to!(s@[i as int] => s@[i as int].1));
            assert(decreases_to!(s@[i as int].1 => s@[i as int].1@));
        }
        push_nodes(out, b, body);
        out.append("}");
        proof {
            let sub = s@.subrange(0, i as int + 1);
            assert(sub.drop_last() =~= s@.subrange(0, i as int));
            assert(sub.last() == s@[i as int]);
            assert(out@ =~= start + branches_code(*b, sub));
        }
        i = i + 1;
    }
    proof {
        assert(s@.subrange(0, i as int) =~= s@);
    }
}

/// Generates the code for `v` in the contract of `b`.
pub fn gen_nodes(b: &Backend, v: &Vec<HIR>) -> (r: String)
    ensures
        r@ == nodes_code(*b, v@),
{
    let mut out = String::new();
    push_nodes(&mut out, b, v);
    proof {
        assert(out@ =~= nodes_code(*b, v@));
    }
    out
}

/// A code generator: turns lowered nodes into renderer source text.
pub trait CodeGen {
    /// The code generated for `v`.
    spec fn spec_gen(&self, v: Seq<HIR>) -> Seq<char>;

    fn gen(&mut self, v: Vec<HIR>) -> (r: String)
        ensures
            r@ == old(self).spec_gen(v@),
    ;
}

} // verus!
