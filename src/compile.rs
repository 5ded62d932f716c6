use vstd::prelude::*;
use vstd::utf8::encode_utf8;

use crate::error::{ErrorKind, ErrorMessage};
use crate::hir::{hirs_view, HirV, HIR};
use crate::lexer::lex_spec;
use crate::lower::{lower, lower_spec, Node, Partials};
use crate::parser::parse;
use crate::span::Span;

verus! {

/// Whether `span` lies in the template (file 0) or in one of the partials
/// (file `k + 1` for the partial at `k`).
pub open spec fn span_in_sources(span: Span, src: Seq<char>, partials: Seq<(String, String)>) -> bool {
    &&& span.lo <= span.hi
    &&& span.file == 0 ==> span.hi <= encode_utf8(src).len()
    &&& span.file > 0 ==> span.file <= partials.len() && span.hi <= encode_utf8(
        partials[span.file - 1].1@,
    ).len()
    &&& span.file <= partials.len()
}

pub open spec fn table_names(t: Seq<(String, Vec<Node>)>) -> Seq<Seq<char>> {
    t.map_values(|e: (String, Vec<Node>)| e.0@)
}

pub open spec fn partial_names(p: Seq<(String, String)>) -> Seq<Seq<char>> {
    p.map_values(|e: (String, String)| e.0@)
}

/// Compiles a template: parses it and each partial (name, source), then
/// lowers it with partials expanded. What it returns is the lowering of
/// the parsed template with the parsed partials, under their names. Source
/// that does not lex fails. A parse error points into the file it was found
/// in; a lowering error spans the whole template.
pub fn compile(src: &str, partials: &Vec<(String, String)>) -> (r: Result<
    Vec<HIR>,
    ErrorMessage<ErrorKind>,
>)
    ensures
        r matches Err(e) ==> span_in_sources(e.span, src@, partials@),
        r matches Ok(h) ==> exists|table: Seq<(String, Vec<Node>)>, nodes: Seq<Node>|
            table_names(table) == partial_names(partials@) && lower_spec(
                table,
                Seq::empty(),
                Seq::empty(),
                nodes,
                false,
                false,
            ) == Ok::<Seq<HirV>, ErrorKind>(hirs_view(h@)),
        lex_spec(encode_utf8(src@), 0) is Err ==> r is Err,
        forall|k: int|
            0 <= k < partials@.len() && (#[trigger] lex_spec(encode_utf8(partials@[k].1@), 0)) is Err
                ==> r is Err,
{
    let mut table: Partials = Vec::new();
    let mut k: usize = 0;
    proof {
        assert(table_names(table@) =~= partial_names(partials@.subrange(0, 0)));
    }
    while k < partials.len()
        invariant
            k <= partials@.len(),
            table_names(table@) == partial_names(partials@.subrange(0, k as int)),
            forall|j: int| 0 <= j < k ==> (#[trigger] lex_spec(encode_utf8(partials@[j].1@), 0)) is Ok,
        decreases partials@.len() - k,
    {
        let (name, text) = &partials[k];
        match parse(text.as_str(), k + 1) {
            Ok(nodes) => {
                let ghost before = table@;
                let n2 = name.clone();
                proof {
                    assert(n2@ == partials@[k as int].0@);
                }
                table.push((n2, nodes));
                proof {
                    assert(table@ =~= before.push((n2, nodes)));
                    assert(partials@.subrange(0, k as int + 1) =~= partials@.subrange(0, k as int).push(
                        partials@[k as int],
                    ));
                    assert(table_names(table@) =~= table_names(before).push(n2@));
                    assert(partial_names(partials@.subrange(0, k as int + 1)) =~= partial_names(
                        partials@.subrange(0, k as int),
                    ).push(partials@[k as int].0@));
                    assert(table_names(table@) =~= partial_names(partials@.subrange(0, k as int + 1)));
                }
            },
            Err(e) => {
                return Err(e);
            },
        }
        k = k + 1;
    }
    proof {
        assert(partials@.subrange(0, k as int) =~= partials@);
    }
    let nodes = match parse(src, 0) {
        Ok(n) => n,
        Err(e) => {
            return Err(e);
        },
    };
    match lower(&table, &nodes) {
        Ok(hir) => {
            proof {
                assert(table_names(table@) == partial_names(partials@));
            }
            Ok(hir)
        },
        Err(e) => Err(ErrorMessage { message: e, span: Span { file: 0, lo: 0, hi: src.as_bytes().len() } }),
    }
}

} // verus!
