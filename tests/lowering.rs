use yarte::error::ErrorKind;
use yarte::hir::{Each, IfElse, HIR};
use yarte::lower::{const_items, lit_text, lower, EachNode, IfNode, Node, Partials, Ws};
use yarte::scope::{resolve, Level, Part};
use yarte::text::{trim_end_ws, trim_start_ws};

fn text(s: &str) -> Part {
    Part::Text(s.to_string())
}

fn id(up: usize, name: &str) -> Part {
    Part::Ident(up, name.to_string())
}

fn expr(parts: Vec<Part>) -> Node {
    Node::Expr(parts)
}

fn ws(open_before: bool, open_after: bool, close_before: bool, close_after: bool) -> Ws {
    Ws { open_before, open_after, close_before, close_after }
}

fn each(args: Vec<Part>, body: Vec<Node>, w: Ws) -> Node {
    Node::Each(Box::new(EachNode { args, body, els: vec![], ws: w }))
}

/// Renders lowered nodes whose expressions are literals, bindings of the
/// loops in `loops`, or `self.0`.
fn render(nodes: &[HIR], loops: &[(&str, Vec<&str>)], bound: &mut Vec<(String, String)>) -> String {
    let mut out = String::new();
    for n in nodes {
        match n {
            HIR::Lit(t) => out.push_str(t),
            HIR::Expr(e) | HIR::Safe(e) => {
                if let Some((_, v)) = bound.iter().rev().find(|(k, _)| k == e) {
                    out.push_str(&v.clone());
                } else if e == "self.0" {
                    out.push_str("fol");
                } else {
                    out.push_str(e.trim_matches(|c| c == '(' || c == ')' || c == '"'));
                }
            },
            HIR::Each(each) => {
                let items = &loops.iter().find(|(a, _)| *a == each.args).unwrap().1;
                let names = each.expr.trim_matches(|c| c == '(' || c == ')');
                let (index, item) = names.split_once(", ").unwrap();
                for (i, v) in items.iter().enumerate() {
                    bound.push((item.to_string(), v.to_string()));
                    bound.push((format!("({} + 1)", index), (i + 1).to_string()));
                    out.push_str(&render(&each.body, loops, bound));
                    bound.pop();
                    bound.pop();
                }
            },
            _ => panic!("not rendered here"),
        }
    }
    out
}

fn run(nodes: Vec<Node>) -> String {
    let hir = lower(&Vec::new(), &nodes).unwrap();
    render(&hir, &[], &mut Vec::new())
}

#[test]
fn whitespace_sigils_trim_neighbours() {
    let nodes = vec![
        Node::Lit("foo\n".to_string()),
        each(
            vec![text("[1, 2]")],
            vec![Node::Lit("\n".to_string()), expr(vec![id(0, "this")]), Node::Lit("\n".to_string())],
            ws(true, true, true, false),
        ),
    ];
    assert_eq!(run(nodes), "foo12");
}

#[test]
fn trimming_stops_after_one_newline() {
    assert_eq!(trim_end_ws("a\n\n \t"), "a\n");
    assert_eq!(trim_end_ws("a  "), "a");
    assert_eq!(trim_start_ws(" \n\nb"), "\nb");
    assert_eq!(trim_start_ws("  b"), "b");
    assert_eq!(lit_text(" \n x \n ", true, true), " x ");
    assert_eq!(lit_text(" x ", false, false), " x ");
}

#[test]
fn unrolled_array_literal() {
    let body = vec![expr(vec![id(0, "this")]), Node::Lit(" ".to_string()), expr(vec![id(0, "index")])];
    let nodes = vec![each(vec![text("&[\"foo\", \"bar\"]")], body, ws(false, false, false, false))];
    let hir = lower(&Vec::new(), &nodes).unwrap();
    assert!(hir.iter().all(|n| !matches!(n, HIR::Each(_))));
    assert_eq!(render(&hir, &[], &mut Vec::new()), "foo 1bar 2");
}

#[test]
fn unrolled_range_literal() {
    let body = vec![expr(vec![id(0, "this")]), Node::Lit(" ".to_string()), expr(vec![id(0, "index")])];
    let nodes = vec![each(vec![text("1..10")], body, ws(false, false, false, false))];
    assert_eq!(run(nodes), "1 12 23 34 45 56 67 78 89 9");
}

#[test]
fn nested_loops_reach_outward() {
    let inner = each(
        vec![text("2..4")],
        vec![expr(vec![id(1, "index")]), Node::Lit(" ".to_string()), expr(vec![id(0, "this")])],
        ws(false, false, false, false),
    );
    let outer = each(
        vec![text("&[\"foo\", \"bar\"]")],
        vec![inner, Node::Lit(" ".to_string()), expr(vec![id(0, "this")])],
        ws(false, false, false, false),
    );
    assert_eq!(run(vec![outer]), "1 21 3 foo2 22 3 bar");
}

#[test]
fn positional_field_of_the_template() {
    let inner = each(
        vec![text("2..4")],
        vec![
            expr(vec![id(1, "index")]),
            Node::Lit(" ".to_string()),
            expr(vec![id(2, "_0")]),
            Node::Lit(" ".to_string()),
            expr(vec![id(0, "this")]),
        ],
        ws(false, false, false, false),
    );
    let outer = each(
        vec![text("&[\"foo\", \"bar\"]")],
        vec![inner, Node::Lit(" ".to_string()), expr(vec![id(0, "this")])],
        ws(false, false, false, false),
    );
    assert_eq!(run(vec![outer]), "1 fol 21 fol 3 foo2 fol 22 fol 3 bar");
}

#[test]
fn unrolled_matches_runtime_loop() {
    let body = || vec![expr(vec![id(0, "this")]), Node::Lit("-".to_string()), expr(vec![id(0, "index")])];
    let unrolled = lower(&Vec::new(), &vec![each(vec![text("[7, 8, 9]")], body(), ws(false, false, false, false))]).unwrap();
    let runtime = lower(&Vec::new(), &vec![each(vec![id(0, "items")], body(), ws(false, false, false, false))]).unwrap();
    assert!(matches!(runtime[0], HIR::Each(_)));
    let loops = [("(self.items).into_iter().enumerate()", vec!["7", "8", "9"])];
    assert_eq!(render(&unrolled, &[], &mut Vec::new()), "7-18-29-3");
    assert_eq!(render(&runtime, &loops, &mut Vec::new()), "7-18-29-3");
}

#[test]
fn runtime_loop_shape() {
    let nodes = vec![each(vec![id(0, "items")], vec![expr(vec![id(0, "index")])], ws(false, false, false, false))];
    let hir = lower(&Vec::new(), &nodes).unwrap();
    assert_eq!(
        hir,
        vec![HIR::Each(Box::new(Each {
            args: "(self.items).into_iter().enumerate()".to_string(),
            expr: "(__index_1, __item_1)".to_string(),
            body: vec![HIR::Expr("(__index_1 + 1)".to_string())],
        }))]
    );
}

#[test]
fn conditionals_lower_to_a_chain() {
    let node = Node::If(Box::new(IfNode {
        cond: vec![id(0, "ok")],
        then_body: vec![Node::Lit("a".to_string())],
        els: vec![Node::Lit("b".to_string())],
        ws: ws(false, false, false, false),
    }));
    let hir = lower(&Vec::new(), &vec![node]).unwrap();
    assert_eq!(
        hir,
        vec![HIR::IfElse(Box::new(IfElse {
            ifs: ("self.ok".to_string(), vec![HIR::Lit("a".to_string())]),
            if_else: vec![],
            els: Some(vec![HIR::Lit("b".to_string())]),
        }))]
    );
}

#[test]
fn scope_resolution_levels() {
    let two = vec![Level::Runtime, Level::Runtime];
    assert_eq!(resolve(&two, 0, "index").unwrap(), "(__index_2 + 1)");
    assert_eq!(resolve(&two, 1, "index").unwrap(), "(__index_1 + 1)");
    assert_eq!(resolve(&two, 0, "this").unwrap(), "__item_2");
    assert_eq!(resolve(&two, 1, "name").unwrap(), "__item_1.name");
    assert_eq!(resolve(&two, 2, "_1").unwrap(), "self.1");
    assert_eq!(resolve(&two, 2, "this").unwrap(), "self");
    assert_eq!(resolve(&two, 3, "index"), Err(ErrorKind::SuperDepth));
    let constant = vec![Level::Const("\"x\"".to_string(), 4)];
    assert_eq!(resolve(&constant, 0, "index").unwrap(), "4");
    assert_eq!(resolve(&constant, 0, "this").unwrap(), "(\"x\")");
}

#[test]
fn super_past_the_template_fails() {
    let nodes = vec![expr(vec![id(1, "index")])];
    assert_eq!(lower(&Vec::new(), &nodes), Err(ErrorKind::SuperDepth));
}

#[test]
fn partials_expand_in_place() {
    let table: Partials = vec![("sub/p".to_string(), vec![Node::Lit("\npartial in subdirectory\n".to_string())])];
    let nodes = vec![each(
        vec![text("&[\"foo\", \"bar\"]")],
        vec![expr(vec![id(0, "this")]), Node::Partial("sub/p".to_string()), expr(vec![id(0, "index")])],
        ws(false, false, false, false),
    )];
    let hir = lower(&table, &nodes).unwrap();
    assert_eq!(
        render(&hir, &[], &mut Vec::new()),
        "foo\npartial in subdirectory\n1bar\npartial in subdirectory\n2"
    );
}

#[test]
fn partial_including_itself_fails() {
    let table: Partials = vec![("a".to_string(), vec![Node::Partial("a".to_string())])];
    assert_eq!(lower(&table, &vec![Node::Partial("a".to_string())]), Err(ErrorKind::Recursion));
}

#[test]
fn partial_cycle_through_another_fails() {
    let table: Partials = vec![
        ("a".to_string(), vec![Node::Lit("x".to_string()), Node::Partial("b".to_string())]),
        ("b".to_string(), vec![each(vec![text("1..3")], vec![Node::Partial("a".to_string())], ws(false, false, false, false))]),
    ];
    assert_eq!(lower(&table, &vec![Node::Partial("a".to_string())]), Err(ErrorKind::Recursion));
}

#[test]
fn unknown_partial_fails() {
    assert_eq!(lower(&Vec::new(), &vec![Node::Partial("nope".to_string())]), Err(ErrorKind::Path));
}

#[test]
fn literal_collections() {
    assert_eq!(const_items("1..4").unwrap(), vec!["1", "2", "3"]);
    assert_eq!(const_items("&[1, 2]").unwrap(), vec!["1", "2"]);
    assert!(const_items("3..3").is_none());
    assert!(const_items("[]").is_none());
    assert!(const_items("items").is_none());
    assert!(const_items("0..1000").is_none());
}

#[test]
fn each_with_else_keeps_a_flag() {
    let node = Node::Each(Box::new(EachNode {
        args: vec![id(0, "items")],
        body: vec![expr(vec![id(0, "this")])],
        els: vec![Node::Lit("none".to_string())],
        ws: ws(false, false, false, false),
    }));
    let hir = lower(&Vec::new(), &vec![node]).unwrap();
    assert_eq!(
        hir,
        vec![
            HIR::Local("let mut __empty_1 = true;".to_string()),
            HIR::Each(Box::new(Each {
                args: "(self.items).into_iter().enumerate()".to_string(),
                expr: "(__index_1, __item_1)".to_string(),
                body: vec![
                    HIR::Local("__empty_1 = false;".to_string()),
                    HIR::Expr("__item_1".to_string()),
                ],
            })),
            HIR::IfElse(Box::new(IfElse {
                ifs: ("__empty_1".to_string(), vec![HIR::Lit("none".to_string())]),
                if_else: vec![],
                els: None,
            })),
        ]
    );
}

#[test]
fn else_body_errors_are_reported() {
    let node = Node::Each(Box::new(EachNode {
        args: vec![text("[1]")],
        body: vec![],
        els: vec![expr(vec![id(1, "index")])],
        ws: ws(false, false, false, false),
    }));
    assert_eq!(lower(&Vec::new(), &vec![node]), Err(ErrorKind::SuperDepth));
}
