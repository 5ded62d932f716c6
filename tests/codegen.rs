use yarte::codegen::CodeGen;
use yarte::fixed::{FixedCodeGen, HTMLFixedCodeGen, TextFixedCodeGen};
use yarte::fmt::{extension, FmtCodeGen};
use yarte::hir::{Each, IfElse, Mode, Struct, HIR};
use yarte::html::{HTMLCodeGen, HTMLMinCodeGen, TextCodeGen};
use yarte::text::minify_text;

fn lit(s: &str) -> HIR {
    HIR::Lit(s.to_string())
}

fn descriptor(path: &str, mode: Mode, responder: bool) -> Struct {
    Struct {
        ident: "Foo".to_string(),
        path: path.to_string(),
        mode,
        err_msg: "oops".to_string(),
        responder,
    }
}

#[test]
fn html_leaves() {
    let code = HTMLCodeGen.gen(vec![lit("a\"b"), HIR::Safe("x".to_string()), HIR::Expr("y".to_string())]);
    assert_eq!(
        code,
        r#"_fmt.write_str("a\"b")?;::yarte::Render::render(&(x), _fmt)?;::std::fmt::Display::fmt(&(y), _fmt)?;"#
    );
}

#[test]
fn text_leaves_do_not_escape() {
    let code = TextCodeGen.gen(vec![HIR::Safe("x".to_string()), HIR::Local("let a = 1;".to_string())]);
    assert_eq!(code, "::std::fmt::Display::fmt(&(x), _fmt)?;let a = 1;");
}

#[test]
fn loops_and_conditionals() {
    let each = HIR::Each(Box::new(Each {
        args: "v".to_string(),
        expr: "x".to_string(),
        body: vec![HIR::Expr("x".to_string())],
    }));
    assert_eq!(HTMLCodeGen.gen(vec![each]), "for x in v {::std::fmt::Display::fmt(&(x), _fmt)?;}");
    let cond = HIR::IfElse(Box::new(IfElse {
        ifs: ("a".to_string(), vec![lit("1")]),
        if_else: vec![("b".to_string(), vec![lit("2")])],
        els: Some(vec![lit("3")]),
    }));
    assert_eq!(
        HTMLCodeGen.gen(vec![cond]),
        r#"if a {_fmt.write_str("1")?;} else if b {_fmt.write_str("2")?;} else {_fmt.write_str("3")?;}"#
    );
}

#[test]
fn fixed_literal_is_bounds_checked_by_bytes() {
    let code = TextFixedCodeGen("yarte").gen(vec![lit("héllo\n")]);
    assert_eq!(
        code,
        r#"if buf.len() < buf_cur + 7 { break 'write None; } buf[buf_cur..buf_cur + 7].copy_from_slice("héllo\n".as_bytes()); buf_cur += 7;"#
    );
}

#[test]
fn fixed_expressions_pick_the_helper() {
    let text = TextFixedCodeGen("yarte").gen(vec![HIR::Safe("x".to_string())]);
    assert_eq!(text, "match yarte::RenderSafe::render(&(x), &mut buf[buf_cur..]) { Some(n) => buf_cur += n, None => break 'write None, }");
    let html = HTMLFixedCodeGen("yarte").gen(vec![HIR::Safe("x".to_string()), HIR::Expr("y".to_string())]);
    assert_eq!(
        html,
        "match yarte::RenderFixed::render(&(x), &mut buf[buf_cur..]) { Some(n) => buf_cur += n, None => break 'write None, }match yarte::RenderSafe::render(&(y), &mut buf[buf_cur..]) { Some(n) => buf_cur += n, None => break 'write None, }"
    );
}

#[test]
fn fixed_renderer_wraps_nodes() {
    let s = descriptor("foo.hbs", Mode::HTML, false);
    let code = FixedCodeGen::new(HTMLFixedCodeGen("yarte"), &s).gen(vec![HIR::Expr("y".to_string())]);
    assert_eq!(
        code,
        "impl yarte::TemplateFixedTrait for Foo {fn call(&self, buf: &mut [u8]) -> Option<usize> { let written: Option<usize> = 'write: { let mut buf_cur: usize = 0; match yarte::RenderSafe::render(&(y), &mut buf[buf_cur..]) { Some(n) => buf_cur += n, None => break 'write None, } Some(buf_cur) }; if written.is_none() { buf.fill(0); } written }}"
    );
}

#[test]
fn buffered_renderer_with_size_hint() {
    let s = descriptor("foo.hbs", Mode::HTML, false);
    let code = FmtCodeGen::new(HTMLCodeGen, &s).gen(vec![lit("hi")]);
    let nodes = r#"_fmt.write_str("hi")?;"#;
    let mut expected = String::from("impl ::std::fmt::Display for Foo {fn fmt(&self, _fmt: &mut ::std::fmt::Formatter) -> ::std::fmt::Result { ");
    expected.push_str(nodes);
    expected.push_str(" Ok(()) }}impl Template for Foo {fn size_hint() -> usize { 22 }}");
    assert_eq!(nodes.len(), 22);
    assert_eq!(code, expected);
}

#[test]
fn adapter_gets_mime_and_error_message() {
    let text = descriptor("dir/foo.css", Mode::Text, true);
    let code = FmtCodeGen::new(TextCodeGen, &text).gen(vec![lit("a")]);
    assert!(code.contains(r#"fn mime() -> &'static str { "text/css; charset=utf-8" }"#), "{}", code);
    assert!(code.contains(r#"ErrorInternalServerError("oops")"#), "{}", code);
    assert!(code.contains("impl ::yarte::aw::Responder for Foo {"), "{}", code);

    let html = descriptor("foo.hbs", Mode::HTML, true);
    let code = FmtCodeGen::new(HTMLCodeGen, &html).gen(vec![]);
    assert!(code.contains(r#""text/html; charset=utf-8""#), "{}", code);
    assert!(code.contains("fn size_hint() -> usize { 0 }"), "{}", code);

    let plain = descriptor("notes", Mode::Text, true);
    let code = FmtCodeGen::new(TextCodeGen, &plain).gen(vec![]);
    assert!(code.contains(r#""text/plain; charset=utf-8""#), "{}", code);
}

#[test]
fn no_adapter_unless_asked() {
    let s = descriptor("foo.txt", Mode::Text, false);
    let code = FmtCodeGen::new(TextCodeGen, &s).gen(vec![lit("a")]);
    assert!(!code.contains("mime"));
    assert!(!code.contains("Responder"));
}

#[test]
fn file_extensions() {
    assert_eq!(extension("x.tar.gz").unwrap(), "gz");
    assert_eq!(extension("a/.b.txt").unwrap(), "txt");
    assert!(extension(".bashrc").is_none());
    assert!(extension("a.b/c").is_none());
    assert_eq!(extension("foo.").unwrap(), "");
    assert_eq!(extension("dir/a.txt/").unwrap(), "txt");
}

#[test]
fn minified_html_collapses_whitespace_between_tags() {
    assert_eq!(minify_text("<a>  \n <b> x </b>\n"), "<a> <b> x </b>\n");
    assert_eq!(minify_text("a  b"), "a  b");
    assert_eq!(minify_text("<p> </p>"), "<p> </p>");
    assert_eq!(minify_text("<pre>\n  <b>x</b>\n</pre>"), "<pre>\n  <b>x</b>\n</pre>");
    let code = HTMLMinCodeGen.gen(vec![lit("<ul>\n  <li>")]);
    assert_eq!(code, r#"_fmt.write_str("<ul> <li>")?;"#);
}

#[test]
fn generation_is_deterministic() {
    let make = || vec![lit("a"), HIR::Expr("b".to_string())];
    assert_eq!(HTMLCodeGen.gen(make()), HTMLCodeGen.gen(make()));
}
