use vstd::prelude::*;
use vstd::utf8::encode_utf8;

use crate::error::{ErrorKind, ErrorMessage};
use crate::lexer::{lex, lex_spec, Token, TokenKind};
use crate::lower::{EachNode, IfNode, Node, Ws};
use crate::scope::{str_eq, Part};
use crate::span::Span;
use crate::text::{byte_slice, chars_of, push_char};

verus! {

pub open spec fn ident_start(c: char) -> bool {
    ('a' <= c && c <= 'z') || ('A' <= c && c <= 'Z') || c == '_'
}

pub open spec fn ident_char(c: char) -> bool {
    ident_start(c) || ('0' <= c && c <= '9')
}

fn is_ident_start(c: char) -> (r: bool)
    ensures
        r == ident_start(c),
{
    ('a' <= c && c <= 'z') || ('A' <= c && c <= 'Z') || c == '_'
}

fn is_ident_char(c: char) -> (r: bool)
    ensures
        r == ident_char(c),
{
    is_ident_start(c) || ('0' <= c && c <= '9')
}

/// Words that are host-language syntax, never template bindings.
pub open spec fn keyword_spec(w: Seq<char>) -> bool {
    w == "true"@ || w == "false"@ || w == "as"@ || w == "in"@ || w == "if"@ || w == "else"@ || w
        == "let"@ || w == "match"@ || w == "self"@ || w == "Self"@ || w == "mut"@ || w == "ref"@
        || w == "move"@ || w == "crate"@ || w == "super"@
}

fn is_keyword(w: &str) -> (r: bool)
    ensures
        r == keyword_spec(w@),
{
    str_eq(w, "true") || str_eq(w, "false") || str_eq(w, "as") || str_eq(w, "in") || str_eq(
        w,
        "if",
    ) || str_eq(w, "else") || str_eq(w, "let") || str_eq(w, "match") || str_eq(w, "self")
        || str_eq(w, "Self") || str_eq(w, "mut") || str_eq(w, "ref") || str_eq(w, "move")
        || str_eq(w, "crate") || str_eq(w, "super")
}

/// End of the identifier characters that start at `j`.
pub open spec fn ident_end_spec(s: Seq<char>, j: int) -> int
    decreases s.len() - j,
{
    if j >= s.len() || j < 0 {
        s.len() as int
    } else if ident_char(s[j]) {
        ident_end_spec(s, j + 1)
    } else {
        j
    }
}

/// End of the string literal whose text starts at `i` (after its opening
/// quote): just past the closing quote, a backslash escaping the next
/// character; the end of `s` when the literal is not closed.
pub open spec fn string_end(s: Seq<char>, i: int) -> int
    decreases s.len() - i,
{
    if i >= s.len() || i < 0 {
        s.len() as int
    } else if s[i] == '"' {
        i + 1
    } else if s[i] == '\\' && i + 1 < s.len() {
        string_end(s, i + 2)
    } else {
        string_end(s, i + 1)
    }
}

/// The `super::` uses in front of the path at `j`, and where its last
/// segment starts.
pub open spec fn super_chain(s: Seq<char>, j: int, up: nat) -> (nat, int)
    decreases s.len() - j,
{
    let k = ident_end_spec(s, j);
    if 0 <= j <= k && k + 2 < s.len() && s[k] == ':' && s[k + 1] == ':' && ident_start(s[k + 2])
        && s.subrange(j, k) == "super"@ {
        super_chain(s, k + 2, up + 1)
    } else {
        (up, j)
    }
}

/// An identifier starts at `i` that is not part of a longer word, a field
/// access, a path or a lifetime.
pub open spec fn binding_start(s: Seq<char>, i: int) -> bool {
    ident_start(s[i]) && (i == 0 || !(ident_char(s[i - 1]) || s[i - 1] == '.' || s[i - 1] == ':'
        || s[i - 1] == '\''))
}

/// A call, a macro or a path follows position `k`.
pub open spec fn call_after(s: Seq<char>, k: int) -> bool {
    k < s.len() && (s[k] == '(' || s[k] == '!' || (s[k] == ':' && k + 1 < s.len() && s[k + 1]
        == ':'))
}

/// A part as contracts see it.
pub ghost enum PartV {
    Text(Seq<char>),
    Ident(nat, Seq<char>),
}

pub open spec fn part_view(p: Part) -> PartV {
    match p {
        Part::Text(t) => PartV::Text(t@),
        Part::Ident(up, name) => PartV::Ident(up as nat, name@),
    }
}

pub open spec fn parts_view(ps: Seq<Part>) -> Seq<PartV> {
    ps.map_values(|p: Part| part_view(p))
}

pub open spec fn flush_text(acc: Seq<PartV>, buf: Seq<char>) -> Seq<PartV> {
    if buf.len() > 0 {
        acc.push(PartV::Text(buf))
    } else {
        acc
    }
}

/// The parts of `s` from position `i` on, `buf` holding the text read since
/// the last part and `acc` the parts made so far. A string literal is text.
/// An identifier at a binding start, with the `super::` uses in front of
/// it, is a binding unless, with no `super::`, it is a keyword or a call,
/// macro or path follows it; then it is text.
pub open spec fn scan(s: Seq<char>, i: int, buf: Seq<char>, acc: Seq<PartV>) -> Seq<PartV>
    decreases s.len() - i,
{
    if i >= s.len() || i < 0 {
        flush_text(acc, buf)
    } else if s[i] == '"' {
        let j = string_end(s, i + 1);
        if j <= i || j > s.len() {
            flush_text(acc, buf)
        } else {
            scan(s, j, buf + s.subrange(i, j), acc)
        }
    } else if binding_start(s, i) {
        let (up, j) = super_chain(s, i, 0);
        let k = ident_end_spec(s, j);
        let w = s.subrange(j, k);
        if k == j || (up == 0 && (call_after(s, k) || keyword_spec(w))) {
            let k2 = if k == i {
                i + 1
            } else {
                k
            };
            if k2 <= i || k2 > s.len() {
                flush_text(acc, buf)
            } else {
                scan(s, k2, buf + s.subrange(i, k2), acc)
            }
        } else if k <= i || k > s.len() {
            flush_text(acc, buf)
        } else {
            scan(s, k, Seq::empty(), flush_text(acc, buf).push(PartV::Ident(up, w)))
        }
    } else {
        scan(s, i + 1, buf.push(s[i]), acc)
    }
}

/// End of the identifier that starts at `i`.
fn ident_end(cs: &Vec<char>, i: usize) -> (r: usize)
    requires
        i <= cs@.len(),
    ensures
        i <= r <= cs@.len(),
        forall|j: int| i <= j < r ==> ident_char(#[trigger] cs@[j]),
        i < cs@.len() && ident_char(cs@[i as int]) ==> r > i,
        r == ident_end_spec(cs@, i as int),
{
    let mut k: usize = i;
    while k < cs.len() && is_ident_char(cs[k])
        invariant
            i <= k <= cs@.len(),
            ident_end_spec(cs@, k as int) == ident_end_spec(cs@, i as int),
            forall|j: int| i <= j < k ==> ident_char(#[trigger] cs@[j]),
        decreases cs@.len() - k,
    {
        k = k + 1;
    }
    k
}

fn word(cs: &Vec<char>, lo: usize, hi: usize) -> (r: String)
    requires
        lo <= hi <= cs@.len(),
    ensures
        r@ == cs@.subrange(lo as int, hi as int),
{
    let mut w = String::new();
    let mut k: usize = lo;
    while k < hi
        invariant
            lo <= k <= hi <= cs@.len(),
            w@ == cs@.subrange(lo as int, k as int),
        decreases hi - k,
    {
        push_char(&mut w, cs[k]);
        proof {
            assert(cs@.subrange(lo as int, k + 1) =~= cs@.subrange(lo as int, k as int).push(
                cs@[k as int],
            ));
        }
        k = k + 1;
    }
    w
}

/// `super::` written `up` times.
pub open spec fn supers(up: nat) -> Seq<char>
    decreases up,
{
    if up == 0 {
        Seq::empty()
    } else {
        supers((up - 1) as nat) + "super::"@
    }
}

/// The source text a part stands for.
pub open spec fn part_source(p: Part) -> Seq<char> {
    match p {
        Part::Text(t) => t@,
        Part::Ident(up, name) => supers(up as nat) + name@,
    }
}

pub open spec fn parts_source(ps: Seq<Part>) -> Seq<char>
    decreases ps.len(),
{
    if ps.len() == 0 {
        Seq::empty()
    } else {
        parts_source(ps.drop_last()) + part_source(ps.last())
    }
}

/// A binding part names something.
pub open spec fn named(p: Part) -> bool {
    match p {
        Part::Ident(_, name) => name@.len() > 0,
        Part::Text(_) => true,
    }
}

proof fn lemma_parts_source_push(ps: Seq<Part>, p: Part)
    ensures
        parts_source(ps.push(p)) == parts_source(ps) + part_source(p),
{
    assert(ps.push(p).drop_last() =~= ps);
}

/// Splits a host expression into text and template bindings: `this`,
/// `index`, fields and positional captures, each with the number of
/// `super::` in front. Words of the host language, calls, macros, paths,
/// fields reached through `.` and string literals stay text. Nothing is
/// lost: the parts spell the expression again.
pub fn expr_parts(text: &str) -> (r: Vec<Part>)
    ensures
        parts_source(r@) == text@,
        forall|k: int| 0 <= k < r@.len() ==> named(#[trigger] r@[k]),
        parts_view(r@) == scan(text@, 0, Seq::empty(), Seq::empty()),
{
    let cs = chars_of(text);
    let n = cs.len();
    let mut parts: Vec<Part> = Vec::new();
    let mut buf = String::new();
    let mut i: usize = 0;
    proof {
        assert(parts_view(parts@) =~= Seq::<PartV>::empty());
    }
    while i < n
        invariant
            n == cs@.len(),
            cs@ == text@,
            i <= n,
            parts_source(parts@) + buf@ == cs@.subrange(0, i as int),
            scan(cs@, i as int, buf@, parts_view(parts@)) == scan(cs@, 0, Seq::empty(), Seq::empty()),
            forall|k: int| 0 <= k < parts@.len() ==> named(#[trigger] parts@[k]),
        decreases n - i,
    {
        let c = cs[i];
        let ghost start = i;
        let ghost buf0 = buf@;
        let ghost acc0 = parts_view(parts@);
        if c == '"' {
            push_char(&mut buf, c);
            i = i + 1;
            proof {
                assert(cs@.subrange(0, i as int) =~= cs@.subrange(0, start as int).push(c));
            }
            proof {
                assert(buf@ =~= buf0 + cs@.subrange(start as int, i as int));
            }
            while i < n && cs[i] != '"'
                invariant
                    n == cs@.len(),
                    start < i <= n,
                    parts_source(parts@) + buf@ == cs@.subrange(0, i as int),
                    buf@ == buf0 + cs@.subrange(start as int, i as int),
                    string_end(cs@, i as int) == string_end(cs@, start + 1),
                decreases n - i,
            {
                if cs[i] == '\\' && i + 1 < n {
                    push_char(&mut buf, cs[i]);
                    proof {
                        assert(cs@.subrange(0, i + 1) =~= cs@.subrange(0, i as int).push(cs@[i as int]));
                        assert(buf@ =~= buf0 + cs@.subrange(start as int, i + 1));
                    }
                    i = i + 1;
                }
                push_char(&mut buf, cs[i]);
                proof {
                    assert(cs@.subrange(0, i + 1) =~= cs@.subrange(0, i as int).push(cs@[i as int]));
                    assert(buf@ =~= buf0 + cs@.subrange(start as int, i + 1));
                }
                i = i + 1;
            }
            if i < n {
                push_char(&mut buf, cs[i]);
                proof {
                    assert(cs@.subrange(0, i + 1) =~= cs@.subrange(0, i as int).push(cs@[i as int]));
                    assert(buf@ =~= buf0 + cs@.subrange(start as int, i + 1));
                }
                i = i + 1;
            }
            proof {
                assert(i as int == string_end(cs@, start + 1));
            }
        } else if is_ident_start(c) && (i == 0 || !(is_ident_char(cs[i - 1]) || cs[i - 1] == '.'
            || cs[i - 1] == ':' || cs[i - 1] == '\'')) {
            let mut up: usize = 0;
            let mut j: usize = i;
            let mut k: usize = ident_end(&cs, j);
            proof {
                reveal_strlit("super");
                reveal_strlit("super::");
                assert(cs@.subrange(i as int, j as int) =~= supers(0));
            }
            while k < n && n - k > 2 && cs[k] == ':' && cs[k + 1] == ':' && is_ident_start(
                cs[k + 2],
            ) && str_eq(word(&cs, j, k).as_str(), "super")
                invariant
                    n == cs@.len(),
                    i <= j <= k <= n,
                    up <= j,
                    k == ident_end_spec(cs@, j as int),
                    super_chain(cs@, j as int, up as nat) == super_chain(cs@, i as int, 0),
                    cs@.subrange(i as int, j as int) == supers(up as nat),
                decreases n - j,
            {
                proof {
                    reveal_strlit("super");
                    reveal_strlit("super::");
                    assert("super"@ + seq![':', ':'] =~= "super::"@);
                    assert(cs@.subrange(j as int, k as int) == "super"@);
                    assert(cs@.subrange(i as int, k + 2) =~= cs@.subrange(i as int, j as int)
                        + cs@.subrange(j as int, k as int) + seq![':', ':']);
                    assert(cs@.subrange(i as int, k + 2) =~= supers(up as nat + 1));
                }
                up = up + 1;
                j = k + 2;
                k = ident_end(&cs, j);
            }
            let w = word(&cs, j, k);
            let call = k < n && (cs[k] == '(' || cs[k] == '!' || (cs[k] == ':' && n - k > 1
                && cs[k + 1] == ':'));
            if k == j || (up == 0 && (call || is_keyword(w.as_str()))) {
                let all = word(&cs, i, k);
                buf.append(all.as_str());
                proof {
                    assert(cs@.subrange(0, k as int) =~= cs@.subrange(0, i as int) + all@);
                    assert(buf@ =~= buf0 + cs@.subrange(i as int, k as int));
                }
                if k == i {
                    push_char(&mut buf, c);
                    k = i + 1;
                    proof {
                        assert(cs@.subrange(0, k as int) =~= cs@.subrange(0, i as int).push(c));
                        assert(buf@ =~= buf0 + cs@.subrange(i as int, k as int));
                    }
                }
            } else {
                if buf.unicode_len() > 0 {
                    proof {
                        lemma_parts_source_push(parts@, Part::Text(buf));
                    }
                    let ghost pv = parts@;
                    parts.push(Part::Text(buf));
                    proof {
                        assert(parts_view(parts@) =~= parts_view(pv).push(PartV::Text(buf0)));
                    }
                    buf = String::new();
                }
                proof {
                    assert(parts_view(parts@) == flush_text(acc0, buf0));
                }
                let ghost pv2 = parts@;
                proof {
                    lemma_parts_source_push(parts@, Part::Ident(up, w));
                    assert(cs@.subrange(0, k as int) =~= cs@.subrange(0, i as int) + cs@.subrange(
                        i as int,
                        j as int,
                    ) + w@);
                }
                parts.push(Part::Ident(up, w));
                proof {
                    assert(parts_view(parts@) =~= parts_view(pv2).push(PartV::Ident(up as nat, w@)));
                    assert(buf@ =~= Seq::<char>::empty());
                }
            }
            i = k;
        } else {
            push_char(&mut buf, c);
            proof {
                assert(cs@.subrange(0, i + 1) =~= cs@.subrange(0, i as int).push(c));
            }
            i = i + 1;
        }
    }
    let ghost pv = parts@;
    let ghost bv = buf@;
    if buf.unicode_len() > 0 {
        proof {
            lemma_parts_source_push(parts@, Part::Text(buf));
        }
        parts.push(Part::Text(buf));
        proof {
            assert(parts_view(parts@) =~= parts_view(pv).push(PartV::Text(bv)));
        }
    }
    proof {
        assert(cs@.subrange(0, n as int) =~= cs@);
    }
    parts
}

pub open spec fn space(c: char) -> bool {
    c == ' ' || c == '\n' || c == '\t' || c == '\r'
}

/// First position at or after `i` that holds no whitespace.
pub open spec fn lead(s: Seq<char>, i: int) -> int
    decreases s.len() - i,
{
    if i >= s.len() || i < 0 {
        s.len() as int
    } else if space(s[i]) {
        lead(s, i + 1)
    } else {
        i
    }
}

/// End of the last character before `j`, and not before `lo`, that is no
/// whitespace.
pub open spec fn trail(s: Seq<char>, lo: int, j: int) -> int
    decreases j - lo,
{
    if j <= lo {
        lo
    } else if space(s[j - 1]) {
        trail(s, lo, j - 1)
    } else {
        j
    }
}

/// `s` without leading and trailing whitespace.
pub open spec fn trim_spec(s: Seq<char>) -> Seq<char> {
    let lo = lead(s, 0);
    s.subrange(lo, trail(s, lo, s.len() as int))
}

fn is_space(c: char) -> (r: bool)
    ensures
        r == space(c),
{
    c == ' ' || c == '\n' || c == '\t' || c == '\r'
}

/// `s` without leading and trailing whitespace.
pub(crate) fn trim(s: &str) -> (r: String)
    ensures
        r@ == trim_spec(s@),
{
    let cs = chars_of(s);
    let n = cs.len();
    let mut lo: usize = 0;
    while lo < n && is_space(cs[lo])
        invariant
            n == cs@.len(),
            cs@ == s@,
            lo <= n,
            lead(s@, lo as int) == lead(s@, 0),
        decreases n - lo,
    {
        lo = lo + 1;
    }
    let mut hi: usize = n;
    while hi > lo && is_space(cs[hi - 1])
        invariant
            n == cs@.len(),
            cs@ == s@,
            lo <= hi <= n,
            lead(s@, 0) == lo,
            trail(s@, lo as int, hi as int) == trail(s@, lo as int, n as int),
        decreases hi,
    {
        hi = hi - 1;
    }
    word(&cs, lo, hi)
}

/// The text inside a tag: without its delimiters, whitespace sigils, the
/// character that tells its kind, and surrounding whitespace.
fn tag_content(src: &str, t: Token) -> (r: Option<String>) {
    let open: usize = if t.kind == TokenKind::Raw {
        3
    } else {
        2
    };
    let marker: usize = match t.kind {
        TokenKind::Open | TokenKind::Close | TokenKind::Comment | TokenKind::Partial => 1,
        _ => 0,
    };
    let before: usize = if t.ws_before {
        1
    } else {
        0
    };
    let after: usize = if t.ws_after {
        1
    } else {
        0
    };
    if t.hi < t.lo || t.hi - t.lo < open + before + marker + open + after {
        return Some(String::new());
    }
    let lo = t.lo + open + before + marker;
    let hi = t.hi - open - after;
    match byte_slice(src, lo, hi) {
        Some(inner) => Some(trim(inner.as_str())),
        None => None,
    }
}

/// An open block while its body is read.
struct Frame {
    /// `each` (else `if`).
    is_each: bool,
    head: Vec<Part>,
    open: Token,
    parent: Vec<Node>,
    then_body: Vec<Node>,
    in_else: bool,
    /// Opened by `{{else if ..}}`: its closer closes the enclosing `if` too.
    chained: bool,
}

/// The block node a frame stands for, once its last body is read.
fn close_frame(f: Frame, body: Vec<Node>, close: Token) -> (Node, Vec<Node>) {
    let ws = Ws {
        open_before: f.open.ws_before,
        open_after: f.open.ws_after,
        close_before: close.ws_before,
        close_after: close.ws_after,
    };
    let node = if f.is_each {
        if f.in_else {
            Node::Each(Box::new(EachNode { args: f.head, body: f.then_body, els: body, ws }))
        } else {
            Node::Each(Box::new(EachNode { args: f.head, body, els: Vec::new(), ws }))
        }
    } else if f.in_else {
        Node::If(Box::new(IfNode { cond: f.head, then_body: f.then_body, els: body, ws }))
    } else {
        Node::If(Box::new(IfNode { cond: f.head, then_body: body, els: Vec::new(), ws }))
    };
    (node, f.parent)
}

/// Whether `content` is a `let` statement: host code run for its effect.
fn starts_with_let(content: &str) -> bool {
    let cs = chars_of(content);
    let k = ident_end(&cs, 0);
    str_eq(word(&cs, 0, k).as_str(), "let")
}

/// `Some(cond)` when `content` reads `else if cond`.
fn else_if(content: &str) -> Option<String> {
    let cs = chars_of(content);
    let k = ident_end(&cs, 0);
    if !str_eq(word(&cs, 0, k).as_str(), "else") {
        return None;
    }
    let rest = trim(word(&cs, k, cs.len()).as_str());
    let rs = chars_of(rest.as_str());
    let j = ident_end(&rs, 0);
    if j == 0 || !str_eq(word(&rs, 0, j).as_str(), "if") {
        return None;
    }
    Some(trim(word(&rs, j, rs.len()).as_str()))
}

fn fail(kind: ErrorKind, file: usize, lo: usize, hi: usize) -> (r: ErrorMessage<ErrorKind>)
    ensures
        r.message == kind,
        r.span == (Span { file, lo, hi }),
{
    ErrorMessage { message: kind, span: Span { file, lo, hi } }
}

/// Parses template source into nodes: literal text, expressions, local
/// `let` statements (host code kept verbatim), `each` and
/// `if`/`else if`/`else` blocks with their whitespace sigils, partial
/// inclusions; comments are dropped. An error carries the span of the offending tag in
/// the file `file`; source that does not lex fails with the lexer's error.
pub fn parse(src: &str, file: usize) -> (r: Result<Vec<Node>, ErrorMessage<ErrorKind>>)
    ensures
        r matches Err(e) ==> e.span.file == file && e.span.lo <= e.span.hi <= encode_utf8(
            src@,
        ).len(),
        lex_spec(encode_utf8(src@), 0) matches Err(x) ==> r matches Err(e) && e.message == x.0
            && e.span.lo == x.1,
{
    let len = src.as_bytes().len();
    let toks = match lex(src) {
        Ok(t) => t,
        Err((k, pos)) => {
            return Err(fail(k, file, pos, len));
        },
    };
    let mut cur: Vec<Node> = Vec::new();
    let mut frames: Vec<Frame> = Vec::new();
    let mut i: usize = 0;
    while i < toks.len()
        invariant
            len == encode_utf8(src@).len(),
            lex_spec(encode_utf8(src@), 0) is Ok,
            forall|k: int|
                0 <= k < toks@.len() ==> (#[trigger] toks@[k]).lo < toks@[k].hi <= len,
            forall|k: int|
                0 <= k < frames@.len() ==> (#[trigger] frames@[k]).open.lo < frames@[k].open.hi
                    <= len,
        decreases toks@.len() - i,
    {
        let t = toks[i];
        let content = match tag_content(src, t) {
            Some(c) => c,
            None => {
                return Err(fail(ErrorKind::Empty, file, t.lo, t.hi));
            },
        };
        match t.kind {
            TokenKind::Lit => {
                match byte_slice(src, t.lo, t.hi) {
                    Some(text) => cur.push(Node::Lit(text)),
                    None => {
                        return Err(fail(ErrorKind::Empty, file, t.lo, t.hi));
                    },
                }
            },
            TokenKind::Comment => {},
            TokenKind::Partial => {
                if content.unicode_len() == 0 {
                    return Err(fail(ErrorKind::Path, file, t.lo, t.hi));
                }
                cur.push(Node::Partial(content));
            },
            TokenKind::Escaped | TokenKind::Raw => {
                let chain = if t.kind == TokenKind::Escaped {
                    else_if(content.as_str())
                } else {
                    None
                };
                if t.kind == TokenKind::Escaped && (str_eq(content.as_str(), "else")
                    || chain.is_some()) {
                    match frames.pop() {
                        Some(f) => {
                            if f.in_else || (f.is_each && chain.is_some()) {
                                return Err(fail(ErrorKind::Str(content), file, t.lo, t.hi));
                            }
                            let then_body = cur;
                            cur = Vec::new();
                            frames.push(
                                Frame {
                                    is_each: f.is_each,
                                    head: f.head,
                                    open: f.open,
                                    parent: f.parent,
                                    then_body,
                                    in_else: true,
                                    chained: f.chained,
                                },
                            );
                            match chain {
                                Some(cond) => {
                                    let parent = cur;
                                    cur = Vec::new();
                                    frames.push(
                                        Frame {
                                            is_each: false,
                                            head: expr_parts(cond.as_str()),
                                            open: t,
                                            parent,
                                            then_body: Vec::new(),
                                            in_else: false,
                                            chained: true,
                                        },
                                    );
                                },
                                None => {},
                            }
                        },
                        None => {
                            return Err(fail(ErrorKind::Str(content), file, t.lo, t.hi));
                        },
                    }
                } else {
                    if t.kind == TokenKind::Escaped && starts_with_let(content.as_str()) {
                        cur.push(Node::Local(vec![Part::Text(content)]));
                    } else if t.kind == TokenKind::Escaped {
                        cur.push(Node::Safe(expr_parts(content.as_str())));
                    } else {
                        cur.push(Node::Expr(expr_parts(content.as_str())));
                    }
                }
            },
            TokenKind::Open => {
                let cs = chars_of(content.as_str());
                let k = ident_end(&cs, 0);
                let name = word(&cs, 0, k);
                let rest = word(&cs, k, cs.len());
                let is_each = str_eq(name.as_str(), "each");
                if !is_each && !str_eq(name.as_str(), "if") {
                    return Err(fail(ErrorKind::Str(name), file, t.lo, t.hi));
                }
                let parent = cur;
                cur = Vec::new();
                frames.push(
                    Frame {
                        is_each,
                        head: expr_parts(trim(rest.as_str()).as_str()),
                        open: t,
                        parent,
                        then_body: Vec::new(),
                        in_else: false,
                        chained: false,
                    },
                );
            },
            TokenKind::Close => {
                let f = match frames.pop() {
                    Some(f) => f,
                    None => {
                        return Err(fail(ErrorKind::CloseBlock, file, t.lo, t.hi));
                    },
                };
                let expected = if f.is_each {
                    "each"
                } else {
                    "if"
                };
                if !str_eq(content.as_str(), expected) {
                    return Err(fail(ErrorKind::CloseBlock, file, t.lo, t.hi));
                }
                let mut chained = f.chained;
                let (node, parent) = close_frame(f, cur, t);
                cur = parent;
                cur.push(node);
                while chained
                    invariant
                        len == encode_utf8(src@).len(),
                        lex_spec(encode_utf8(src@), 0) is Ok,
                        t.lo < t.hi <= len,
                        forall|k: int|
                            0 <= k < frames@.len() ==> (#[trigger] frames@[k]).open.lo
                                < frames@[k].open.hi <= len,
                    decreases frames@.len(),
                {
                    let g = match frames.pop() {
                        Some(g) => g,
                        None => {
                            return Err(fail(ErrorKind::CloseBlock, file, t.lo, t.hi));
                        },
                    };
                    chained = g.chained;
                    let (node, parent) = close_frame(g, cur, t);
                    cur = parent;
                    cur.push(node);
                }
            },
        }
        i = i + 1;
    }
    match frames.pop() {
        Some(f) => Err(fail(ErrorKind::Uncompleted, file, f.open.lo, f.open.hi)),
        None => Ok(cur),
    }
}

} // verus!
