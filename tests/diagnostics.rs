use yarte::emitter::{emitter, sort_errors, strip_path_prefix, Config, EmitterConfig, Source};
use yarte::error::{Empty, ErrorKind, ErrorMessage, KiError, LexError};
use yarte::span::{bytes_to_chars, line_end_of, line_number_of, line_start_of, Span};

fn sources(path: &str, text: &str, prefix: Option<&str>) -> EmitterConfig {
    EmitterConfig {
        sources: vec![Source { path: path.to_string(), text: text.to_string() }],
        config: Config { color: false, prefix: prefix.map(|p| p.to_string()) },
    }
}

fn msg(text: &str, file: usize, lo: usize, hi: usize) -> ErrorMessage<ErrorKind> {
    ErrorMessage { message: ErrorKind::Str(text.to_string()), span: Span { file, lo, hi } }
}

#[test]
fn report_underlines_characters_not_bytes() {
    let who = sources("foo.hbs", "foó bañ tuú foú", None);
    let report = emitter(&who, vec![msg("bar", 0, 10, 14)]).unwrap();
    assert_eq!(
        report,
        "error\n --> foo.hbs:1:9\n  |\n1 | foó bañ tuú foú\n  |         ^^^ unexpected `bar`\n  |"
    );
}

#[test]
fn report_path_is_relative_to_prefix() {
    let who = sources("templates/foo.hbs", "abc", Some("templates"));
    let report = emitter(&who, vec![msg("b", 0, 1, 2)]).unwrap();
    assert!(report.contains("--> foo.hbs:1:2"), "{}", report);
}

#[test]
fn report_second_line() {
    let who = sources("a.hbs", "first\nsecond line\nthird", None);
    let report = emitter(&who, vec![msg("x", 0, 13, 17)]).unwrap();
    assert!(report.contains("--> a.hbs:2:8"), "{}", report);
    assert!(report.contains("2 | second line"), "{}", report);
    assert!(!report.contains("third"), "{}", report);
}

#[test]
fn report_lists_earlier_span_first() {
    let text = "0123456789012345678901234567890";
    let who = sources("f.hbs", text, None);
    let report = emitter(&who, vec![msg("late", 0, 20, 24), msg("early", 0, 5, 9)]).unwrap();
    let early = report.find("early").unwrap();
    let late = report.find("late").unwrap();
    assert!(early < late, "{}", report);
}

#[test]
fn sort_orders_by_file_then_offset() {
    let sorted = sort_errors(vec![
        msg("c", 1, 0, 1),
        msg("b", 0, 20, 24),
        msg("a", 0, 5, 9),
        msg("d", 0, 5, 6),
    ]);
    let spans: Vec<(usize, usize)> = sorted.iter().map(|e| (e.span.file, e.span.lo)).collect();
    assert_eq!(spans, vec![(0, 5), (0, 5), (0, 20), (1, 0)]);
    // ties keep their order
    assert_eq!(sorted[0].message, ErrorKind::Str("a".to_string()));
    assert_eq!(sorted[1].message, ErrorKind::Str("d".to_string()));
}

#[test]
fn report_fails_on_span_outside_text() {
    let who = sources("f.hbs", "abc", None);
    assert!(emitter(&who, vec![msg("x", 0, 2, 9)]).is_none());
}

#[test]
fn strip_prefix_is_componentwise() {
    assert_eq!(strip_path_prefix("a/b/c.hbs", "a/b").unwrap(), "c.hbs");
    assert_eq!(strip_path_prefix("a/b/c.hbs", "a/b/").unwrap(), "c.hbs");
    assert_eq!(strip_path_prefix("c.hbs", "").unwrap(), "c.hbs");
    assert!(strip_path_prefix("a/bc/d", "a/b").is_none());
    assert!(strip_path_prefix("x/y", "a").is_none());
}

#[test]
fn line_bookkeeping() {
    let b = "ab\ncdé\nf".as_bytes();
    assert_eq!(line_start_of(b, 5), 3);
    assert_eq!(line_end_of(b, 4), 7);
    assert_eq!(line_number_of(b, 5), 2);
    assert_eq!(line_number_of(b, 0), 1);
    assert_eq!(bytes_to_chars(b, 3, 8), (3, 7));
}

#[test]
fn lex_error_converts_to_message() {
    let span = Span { file: 0, lo: 3, hi: 4 };
    let m: ErrorMessage<ErrorKind> = LexError::Next(ErrorKind::Whitespace, span).into();
    assert_eq!(m.message, ErrorKind::Whitespace);
    assert_eq!(m.span, span);
    let f = LexError::Next(ErrorKind::Path, span).into_fail();
    assert!(!f.is_next());
    assert!(matches!(f, LexError::Fail(ErrorKind::Path, _)));
}

#[test]
fn error_texts() {
    assert_eq!(ErrorKind::char('x').text(), "unexpected `x`");
    assert_eq!(ErrorKind::str("}}").text(), "unexpected `}}`");
    assert_eq!(ErrorKind::uncompleted().text(), "uncompleted");
    assert_eq!(ErrorKind::Recursion.text(), "partial includes itself");
    assert_eq!(Empty::char('x'), Empty);
    assert_eq!(Empty.text(), "Empty");
}
