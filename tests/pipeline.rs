use yarte::compile::compile;
use yarte::emitter::{emitter, Config, EmitterConfig, Source};
use yarte::error::ErrorKind;
use yarte::hir::HIR;
use yarte::lexer::{lex, Token, TokenKind};
use yarte::lower::Node;
use yarte::parser::{expr_parts, parse};
use yarte::scope::Part;

fn tok(kind: TokenKind, lo: usize, hi: usize, ws_before: bool, ws_after: bool) -> Token {
    Token { kind, lo, hi, ws_before, ws_after }
}

/// Renders lowered nodes whose expressions are literals or bindings of the
/// loops in `loops`.
fn render(nodes: &[HIR], loops: &[(&str, Vec<&str>)], bound: &mut Vec<(String, String)>) -> String {
    let mut out = String::new();
    for n in nodes {
        match n {
            HIR::Lit(t) => out.push_str(t),
            HIR::Expr(e) | HIR::Safe(e) => {
                if let Some((_, v)) = bound.iter().rev().find(|(k, _)| k == e) {
                    out.push_str(&v.clone());
                } else {
                    out.push_str(e.trim_matches(|c| c == '(' || c == ')' || c == '"'));
                }
            },
            HIR::Each(each) => {
                let items = &loops.iter().find(|(a, _)| *a == each.args).unwrap().1;
                let names = each.expr.trim_matches(|c| c == '(' || c == ')');
                let (index, item) = names.split_once(", ").unwrap();
                for (i, v) in items.iter().enumerate() {
                    bound.push((item.to_string(), v.to_string()));
                    bound.push((format!("({} + 1)", index), (i + 1).to_string()));
                    out.push_str(&render(&each.body, loops, bound));
                    bound.pop();
                    bound.pop();
                }
            },
            _ => panic!("not rendered here"),
        }
    }
    out
}

#[test]
fn lexer_splits_literals_and_tags() {
    let toks = lex("a{{b}}c{{{d}}}").unwrap();
    assert_eq!(
        toks,
        vec![
            tok(TokenKind::Lit, 0, 1, false, false),
            tok(TokenKind::Escaped, 1, 6, false, false),
            tok(TokenKind::Lit, 6, 7, false, false),
            tok(TokenKind::Raw, 7, 14, false, false),
        ]
    );
}

#[test]
fn lexer_reads_kinds_and_sigils() {
    let toks = lex("{{~#each x~}}{{/each}}{{! note }}{{> p}}").unwrap();
    assert_eq!(toks[0], tok(TokenKind::Open, 0, 13, true, true));
    assert_eq!(toks[1], tok(TokenKind::Close, 13, 22, false, false));
    assert_eq!(toks[2].kind, TokenKind::Comment);
    assert_eq!(toks[3].kind, TokenKind::Partial);
    assert_eq!(toks[3].hi, 40);
}

#[test]
fn lexer_reports_unclosed_tag() {
    assert_eq!(lex("ab{{c"), Err((ErrorKind::Uncompleted, 2)));
    assert_eq!(lex(""), Ok(vec![]));
    assert_eq!(lex("a}}b"), Err((ErrorKind::Char('}'), 1)));
}

#[test]
fn expression_bindings() {
    assert_eq!(
        expr_parts("a + super::index"),
        vec![
            Part::Ident(0, "a".to_string()),
            Part::Text(" + ".to_string()),
            Part::Ident(1, "index".to_string()),
        ]
    );
    assert_eq!(
        expr_parts("x.len()"),
        vec![Part::Ident(0, "x".to_string()), Part::Text(".len()".to_string())]
    );
    assert_eq!(
        expr_parts("format!(\"{} this\", this)"),
        vec![
            Part::Text("format!(\"{} this\", ".to_string()),
            Part::Ident(0, "this".to_string()),
            Part::Text(")".to_string()),
        ]
    );
    assert_eq!(expr_parts("true"), vec![Part::Text("true".to_string())]);
    assert_eq!(expr_parts("super::super::_0"), vec![Part::Ident(2, "_0".to_string())]);
}

#[test]
fn parser_builds_blocks() {
    let nodes = parse("{{#if ok}}a{{else}}b{{/if}}{{! gone }}", 0).unwrap();
    assert_eq!(nodes.len(), 1);
    match &nodes[0] {
        Node::If(i) => {
            assert_eq!(i.cond, vec![Part::Ident(0, "ok".to_string())]);
            assert_eq!(i.then_body, vec![Node::Lit("a".to_string())]);
            assert_eq!(i.els, vec![Node::Lit("b".to_string())]);
        },
        _ => panic!("expected a conditional"),
    }
}

#[test]
fn parser_rejects_mismatched_closer() {
    let e = parse("{{#each x}}{{/if}}", 3).unwrap_err();
    assert_eq!(e.message, ErrorKind::CloseBlock);
    assert_eq!((e.span.file, e.span.lo, e.span.hi), (3, 11, 18));
    let e = parse("{{/each}}", 0).unwrap_err();
    assert_eq!(e.message, ErrorKind::CloseBlock);
    let e = parse("x{{#each x}}", 0).unwrap_err();
    assert_eq!(e.message, ErrorKind::Uncompleted);
    assert_eq!((e.span.lo, e.span.hi), (1, 12));
    let e = parse("{{#with x}}{{/with}}", 0).unwrap_err();
    assert_eq!(e.message, ErrorKind::Str("with".to_string()));
}

#[test]
fn whitespace_control_example() {
    let hir = compile("foo\n{{~#each seq~}}\n{{this}}\n{{~/each}}", &vec![]).unwrap();
    let loops = [("(self.seq).into_iter().enumerate()", vec!["1", "2"])];
    assert_eq!(render(&hir, &loops, &mut Vec::new()), "foo12");
}

#[test]
fn const_for_from_source() {
    let src = "{{~# each &[\"foo\", \"bar\"] ~}}{{ this }} {{ index }}{{~/ each }}";
    let hir = compile(src, &vec![]).unwrap();
    assert_eq!(render(&hir, &[], &mut Vec::new()), "foo 1bar 2");
}

#[test]
fn const_range_from_source() {
    let hir = compile("{{#each 1..10}}{{ this }} {{ index }}{{/each}}", &vec![]).unwrap();
    assert_eq!(render(&hir, &[], &mut Vec::new()), "1 12 23 34 45 56 67 78 89 9");
}

#[test]
fn partial_in_subdirectory() {
    let partials = vec![("sub/p".to_string(), "\npartial in subdirectory\n".to_string())];
    let hir = compile("{{#each 0..2}}{{ this }}{{> sub/p }}{{ index }}{{/each}}", &partials).unwrap();
    assert_eq!(
        render(&hir, &[], &mut Vec::new()),
        "0\npartial in subdirectory\n11\npartial in subdirectory\n2"
    );
}

#[test]
fn self_including_partial_fails_to_compile() {
    let partials = vec![("a".to_string(), "x{{> a}}".to_string())];
    let e = compile("{{> a}}", &partials).unwrap_err();
    assert_eq!(e.message, ErrorKind::Recursion);
    assert_eq!(e.span.file, 0);
}

#[test]
fn parse_error_points_into_the_partial() {
    let partials = vec![("a".to_string(), "ok {{#each x}}".to_string())];
    let e = compile("{{> a}}", &partials).unwrap_err();
    assert_eq!(e.message, ErrorKind::Uncompleted);
    assert_eq!((e.span.file, e.span.lo, e.span.hi), (1, 3, 14));
}

#[test]
fn compile_error_report() {
    let src = "line one\n{{#each x}}{{/if}}";
    let e = compile(src, &vec![]).unwrap_err();
    let who = EmitterConfig {
        sources: vec![Source { path: "t.hbs".to_string(), text: src.to_string() }],
        config: Config { color: false, prefix: None },
    };
    let report = emitter(&who, vec![e]).unwrap();
    assert!(report.contains("--> t.hbs:2:12"), "{}", report);
    assert!(report.contains("mismatched block close"), "{}", report);
}

#[test]
fn else_if_chain_nests() {
    let nodes = parse("{{#if a}}1{{else if b}}2{{else}}3{{/if}}", 0).unwrap();
    assert_eq!(nodes.len(), 1);
    match &nodes[0] {
        Node::If(i) => {
            assert_eq!(i.cond, vec![Part::Ident(0, "a".to_string())]);
            assert_eq!(i.then_body, vec![Node::Lit("1".to_string())]);
            match &i.els[..] {
                [Node::If(j)] => {
                    assert_eq!(j.cond, vec![Part::Ident(0, "b".to_string())]);
                    assert_eq!(j.then_body, vec![Node::Lit("2".to_string())]);
                    assert_eq!(j.els, vec![Node::Lit("3".to_string())]);
                },
                _ => panic!("expected a nested conditional"),
            }
        },
        _ => panic!("expected a conditional"),
    }
}

#[test]
fn each_else_parses() {
    let nodes = parse("{{#each xs}}x{{else}}none{{/each}}", 0).unwrap();
    match &nodes[0] {
        Node::Each(e) => {
            assert_eq!(e.body, vec![Node::Lit("x".to_string())]);
            assert_eq!(e.els, vec![Node::Lit("none".to_string())]);
        },
        _ => panic!("expected a loop"),
    }
}

#[test]
fn let_statement_is_local_code() {
    let nodes = parse("{{ let x = 1; }}{{ x }}", 0).unwrap();
    assert_eq!(nodes[0], Node::Local(vec![Part::Text("let x = 1;".to_string())]));
    assert!(matches!(&nodes[1], Node::Safe(_)));
}
