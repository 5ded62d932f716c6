use vstd::prelude::*;

use crate::codegen::{byte_len, CodeGen};
use crate::hir::{impl_code, Mode, Struct, HIR};
use crate::text::{decimal, push_decimal, push_str_literal, str_literal};

verus! {

/// The MIME type that mime_guess gives first for a file extension, or
/// `text/plain` when it knows none.
pub uninterp spec fn mime_for(ext: Seq<char>) -> Seq<char>;

/// Relies on mime_guess's `from_ext(ext).first_or_text_plain()` and the
/// `Display` of the `Mime` it returns. An empty extension has no guess.
#[verifier::external_body]
fn guess_mime(ext: &str) -> (r: String)
    ensures
        r@ == mime_for(ext@),
        ext@.len() == 0 ==> r@ == "text/plain"@,
{
    mime_guess::from_ext(ext).first_or_text_plain().to_string()
}

/// Position just after the last `/` among the first `i` characters.
pub open spec fn name_start(p: Seq<char>, i: int) -> int
    decreases i,
{
    if i <= 0 {
        0
    } else if p[i - 1] == '/' {
        i
    } else {
        name_start(p, i - 1)
    }
}

/// Position of the last `.` in `p[lo..i]`, or `lo - 1` when there is none.
pub open spec fn last_dot(p: Seq<char>, i: int, lo: int) -> int
    decreases i - lo,
{
    if i <= lo {
        lo - 1
    } else if p[i - 1] == '.' {
        i - 1
    } else {
        last_dot(p, i - 1, lo)
    }
}

/// End of `p[..i]` once trailing `/` are dropped.
pub open spec fn slash_trim(p: Seq<char>, i: int) -> int
    decreases i,
{
    if i <= 0 {
        0
    } else if p[i - 1] == '/' {
        slash_trim(p, i - 1)
    } else {
        i
    }
}

/// Extension of the file named by `p`: what follows the last `.` of its
/// final component (trailing `/` ignored), unless that `.` starts the
/// component.
pub open spec fn extension_spec(p: Seq<char>) -> Option<Seq<char>> {
    last_extension(p.subrange(0, slash_trim(p, p.len() as int)))
}

pub open spec fn last_extension(p: Seq<char>) -> Option<Seq<char>> {
    let lo = name_start(p, p.len() as int);
    let d = last_dot(p, p.len() as int, lo);
    if d > lo {
        Some(p.subrange(d + 1, p.len() as int))
    } else {
        None
    }
}

/// The extension whose MIME type a template is served with.
pub open spec fn mime_ext(s: Struct) -> Seq<char> {
    match s.mode {
        Mode::Text => match extension_spec(s.path@) {
            Some(e) => e,
            None => "txt"@,
        },
        Mode::HTML => "html"@,
    }
}

/// Extension of the file named by `p`.
pub fn extension(p: &str) -> (r: Option<String>)
    ensures
        r is Some <==> extension_spec(p@) is Some,
        r matches Some(e) ==> e@ == extension_spec(p@)->0,
{
    let mut n = p.unicode_len();
    while n > 0 && p.get_char(n - 1) == '/'
        invariant
            n <= p@.len(),
            slash_trim(p@, n as int) == slash_trim(p@, p@.len() as int),
        decreases n,
    {
        n = n - 1;
    }
    last_extension_of(p.substring_char(0, n))
}

fn last_extension_of(p: &str) -> (r: Option<String>)
    ensures
        r is Some <==> last_extension(p@) is Some,
        r matches Some(e) ==> e@ == last_extension(p@)->0,
{
    let n = p.unicode_len();
    let mut lo: usize = n;
    while lo > 0 && p.get_char(lo - 1) != '/'
        invariant
            lo <= n == p@.len(),
            name_start(p@, lo as int) == name_start(p@, n as int),
        decreases lo,
    {
        lo = lo - 1;
    }
    let mut i: usize = n;
    while i > lo && p.get_char(i - 1) != '.'
        invariant
            lo <= i <= n == p@.len(),
            last_dot(p@, i as int, lo as int) == last_dot(p@, n as int, lo as int),
        decreases i,
    {
        i = i - 1;
    }
    if i > lo && i - 1 > lo {
        Some(p.substring_char(i, n).to_owned())
    } else {
        None
    }
}

pub open spec fn size_hint_code(n: usize) -> Seq<char> {
    "fn size_hint() -> usize { "@ + decimal(n as nat) + " }"@
}

pub open spec fn mime_code(s: Struct) -> Seq<char> {
    "fn mime() -> &'static str { "@ + str_literal(mime_for(mime_ext(s)) + "; charset=utf-8"@)
        + " }"@
}

pub open spec fn display_body(nodes: Seq<char>) -> Seq<char> {
    "fn fmt(&self, _fmt: &mut ::std::fmt::Formatter) -> ::std::fmt::Result { "@ + nodes
        + " Ok(()) }"@
}

pub open spec fn responder_body(err_msg: Seq<char>) -> Seq<char> {
    "type Error = ::yarte::aw::Error; type Future = ::yarte::aw::Ready<::std::result::Result<::yarte::aw::HttpResponse, Self::Error>>; fn respond_to(self, _req: &::yarte::aw::HttpRequest) -> Self::Future { match self.call() { Ok(body) => ::yarte::aw::ok(::yarte::aw::HttpResponse::Ok().content_type(Self::mime()).body(body)), Err(_) => ::yarte::aw::err(::yarte::aw::ErrorInternalServerError("@
        + str_literal(err_msg) + ")) } }"@
}

/// Everything the buffered backend emits for a template whose node code is
/// `nodes`: the `Display` impl, the `Template` impl with its size hint (and
/// MIME type when the adapter is asked for), then the adapter.
pub open spec fn fmt_code(s: Struct, nodes: Seq<char>) -> Seq<char> {
    impl_code(s.ident@, "::std::fmt::Display"@, display_body(nodes)) + impl_code(
        s.ident@,
        "Template"@,
        size_hint_code(byte_len(nodes)) + if s.responder {
            mime_code(s)
        } else {
            Seq::empty()
        },
    ) + if s.responder {
        impl_code(s.ident@, "::yarte::aw::Responder"@, responder_body(s.err_msg@))
    } else {
        Seq::empty()
    }
}

/// Generates a renderer that writes through the host's formatting contract
/// into a growable buffer, with a size hint: the length of the node code.
pub struct FmtCodeGen<'a, T: CodeGen> {
    codegen: T,
    s: &'a Struct,
}

impl<'a, T: CodeGen> FmtCodeGen<'a, T> {
    pub closed spec fn spec_codegen(&self) -> T {
        self.codegen
    }

    pub closed spec fn spec_struct(&self) -> &'a Struct {
        self.s
    }

    pub fn new<'n>(codegen: T, s: &'n Struct) -> (r: FmtCodeGen<'n, T>)
        ensures
            r.spec_codegen() == codegen,
            r.spec_struct() == s,
    {
        FmtCodeGen { codegen, s }
    }

    /// MIME type the template is served with.
    fn get_mime(&self) -> (r: String)
        ensures
            r@ == mime_for(mime_ext(*self.s)),
    {
        let ext = match self.s.mode {
            Mode::Text => match extension(self.s.path.as_str()) {
                Some(e) => e,
                None => String::from_str("txt"),
            },
            Mode::HTML => String::from_str("html"),
        };
        guess_mime(ext.as_str())
    }

    fn template(&self, size_hint: usize, tokens: &mut String)
        ensures
            final(tokens)@ == old(tokens)@ + impl_code(
                self.s.ident@,
                "Template"@,
                size_hint_code(size_hint) + if self.s.responder {
                    mime_code(*self.s)
                } else {
                    Seq::empty()
                },
            ),
    {
        let mut body = String::from_str("fn size_hint() -> usize { ");
        push_decimal(&mut body, size_hint);
        body.append(" }");
        if self.s.responder {
            let mut mime = self.get_mime();
            mime.append("; charset=utf-8");
            body.append("fn mime() -> &'static str { ");
            push_str_literal(&mut body, mime.as_str());
            body.append(" }");
        }
        proof {
            assert(body@ =~= size_hint_code(size_hint) + if self.s.responder {
                mime_code(*self.s)
            } else {
                Seq::empty()
            });
        }
        let head = self.s.implement_head("Template", body.as_str());
        tokens.append(head.as_str());
    }

    fn display(&mut self, nodes: Vec<HIR>, tokens: &mut String) -> (size_hint: usize)
        ensures
            size_hint == byte_len(old(self).codegen.spec_gen(nodes@)),
            final(tokens)@ == old(tokens)@ + impl_code(
                old(self).s.ident@,
                "::std::fmt::Display"@,
                display_body(old(self).codegen.spec_gen(nodes@)),
            ),
            final(self).s == old(self).s,
    {
        let nodes = self.codegen.gen(nodes);
        let size_hint = nodes.as_str().len();
        let mut func = String::from_str(
            "fn fmt(&self, _fmt: &mut ::std::fmt::Formatter) -> ::std::fmt::Result { ",
        );
        func.append(nodes.as_str());
        func.append(" Ok(()) }");
        let head = self.s.implement_head("::std::fmt::Display", func.as_str());
        tokens.append(head.as_str());
        size_hint
    }

    fn responder(&self, tokens: &mut String)
        ensures
            final(tokens)@ == old(tokens)@ + impl_code(
                self.s.ident@,
                "::yarte::aw::Responder"@,
                responder_body(self.s.err_msg@),
            ),
    {
        let mut body = String::from_str(
            "type Error = ::yarte::aw::Error; type Future = ::yarte::aw::Ready<::std::result::Result<::yarte::aw::HttpResponse, Self::Error>>; fn respond_to(self, _req: &::yarte::aw::HttpRequest) -> Self::Future { match self.call() { Ok(body) => ::yarte::aw::ok(::yarte::aw::HttpResponse::Ok().content_type(Self::mime()).body(body)), Err(_) => ::yarte::aw::err(::yarte::aw::ErrorInternalServerError(",
        );
        push_str_literal(&mut body, self.s.err_msg.as_str());
        body.append(")) } }");
        let head = self.s.implement_head("::yarte::aw::Responder", body.as_str());
        tokens.append(head.as_str());
    }
}

impl<'a, T: CodeGen> CodeGen for FmtCodeGen<'a, T> {
    open spec fn spec_gen(&self, v: Seq<HIR>) -> Seq<char> {
        fmt_code(*self.spec_struct(), self.spec_codegen().spec_gen(v))
    }

    fn gen(&mut self, v: Vec<HIR>) -> (r: String) {
        let mut tokens = String::new();
        let size_hint = self.display(v, &mut tokens);
        self.template(size_hint, &mut tokens);
        if self.s.responder {
            self.responder(&mut tokens);
        }
        proof {
            assert(tokens@ =~= old(self).spec_gen(v@));
        }
        tokens
    }
}

} // verus!
