use vstd::prelude::*;

use crate::span::Span;
use crate::text::push_char;

verus! {

/// The error vocabulary a lexer speaks.
///
/// Each implementor supplies one value per failure class, and a text that
/// diagnostics print for a value.
pub trait KiError: Sized {
    /// The text a report shows for this error.
    spec fn spec_text(&self) -> Seq<char>;

    fn empty() -> Self;

    fn uncompleted() -> Self;

    fn path() -> Self;

    fn whitespace() -> Self;

    fn str(s: &'static str) -> Self;

    fn char(c: char) -> Self;

    fn string(s: String) -> Self;

    fn text(&self) -> (r: String)
        ensures
            r@ == self.spec_text(),
    ;
}

/// An error that carries no information at all.
#[derive(Clone, Copy, Debug, PartialEq, Eq, Structural)]
pub struct Empty;

impl KiError for Empty {
    open spec fn spec_text(&self) -> Seq<char> {
        seq!['E', 'm', 'p', 't', 'y']
    }

    fn empty() -> Self {
        Empty
    }

    fn uncompleted() -> Self {
        Empty
    }

    fn path() -> Self {
        Empty
    }

    fn whitespace() -> Self {
        Empty
    }

    fn str(_s: &'static str) -> Self {
        Empty
    }

    fn char(_c: char) -> Self {
        Empty
    }

    fn string(_s: String) -> Self {
        Empty
    }

    fn text(&self) -> (r: String) {
        let r = String::from_str("Empty");
        proof {
            reveal_strlit("Empty");
        }
        r
    }
}

/// The closed taxonomy of lexing, parsing and lowering failures.
#[derive(Clone, Debug, PartialEq, Eq)]
pub enum ErrorKind {
    /// Required content was absent.
    Empty,
    /// Input ended inside an unterminated construct.
    Uncompleted,
    /// A mandatory separator was missing.
    Whitespace,
    /// A referenced partial could not be resolved.
    Path,
    /// A literal token was invalid here.
    Str(String),
    /// A character was invalid here.
    Char(char),
    /// A comment was malformed.
    Commentary,
    /// A block was closed with the wrong name.
    CloseBlock,
    /// A partial includes itself.
    Recursion,
    /// A `super::` chain reaches past the outermost block.
    SuperDepth,
}

pub open spec fn kind_text(k: ErrorKind) -> Seq<char> {
    match k {
        ErrorKind::Empty => "empty"@,
        ErrorKind::Uncompleted => "uncompleted"@,
        ErrorKind::Whitespace => "expected whitespace"@,
        ErrorKind::Path => "path not found"@,
        ErrorKind::Str(s) => "unexpected `"@ + s@ + "`"@,
        ErrorKind::Char(c) => "unexpected `"@ + seq![c] + "`"@,
        ErrorKind::Commentary => "malformed comment"@,
        ErrorKind::CloseBlock => "mismatched block close"@,
        ErrorKind::Recursion => "partial includes itself"@,
        ErrorKind::SuperDepth => "super reaches past the outermost block"@,
    }
}

impl KiError for ErrorKind {
    open spec fn spec_text(&self) -> Seq<char> {
        kind_text(*self)
    }

    fn empty() -> Self {
        ErrorKind::Empty
    }

    fn uncompleted() -> Self {
        ErrorKind::Uncompleted
    }

    fn path() -> Self {
        ErrorKind::Path
    }

    fn whitespace() -> Self {
        ErrorKind::Whitespace
    }

    fn str(s: &'static str) -> Self {
        ErrorKind::Str(s.to_owned())
    }

    fn char(c: char) -> Self {
        ErrorKind::Char(c)
    }

    fn string(s: String) -> Self {
        ErrorKind::Str(s)
    }

    fn text(&self) -> (r: String) {
        match self {
            ErrorKind::Empty => String::from_str("empty"),
            ErrorKind::Uncompleted => String::from_str("uncompleted"),
            ErrorKind::Whitespace => String::from_str("expected whitespace"),
            ErrorKind::Path => String::from_str("path not found"),
            ErrorKind::Str(s) => {
                let mut r = String::from_str("unexpected `");
                r.append(s.as_str());
                r.append("`");
                r
            },
            ErrorKind::Char(c) => {
                let mut r = String::from_str("unexpected `");
                push_char(&mut r, *c);
                r.append("`");
                r
            },
            ErrorKind::Commentary => String::from_str("malformed comment"),
            ErrorKind::CloseBlock => String::from_str("mismatched block close"),
            ErrorKind::Recursion => String::from_str("partial includes itself"),
            ErrorKind::SuperDepth => String::from_str("super reaches past the outermost block"),
        }
    }
}

/// Outcome of a lexing rule that did not apply.
///
/// `Fail`: the position is invalid and no other rule can succeed there.
/// `Next`: this rule does not apply, another rule at the same position may.
#[derive(Clone, Debug)]
pub enum LexError<K> {
    Fail(K, Span),
    Next(K, Span),
}

impl<K> LexError<K> {
    pub open spec fn spec_message(&self) -> ErrorMessage<K> {
        match self {
            LexError::Fail(m, s) => ErrorMessage { message: *m, span: *s },
            LexError::Next(m, s) => ErrorMessage { message: *m, span: *s },
        }
    }

    /// Whether another rule may be tried at the same position.
    pub fn is_next(&self) -> (r: bool)
        ensures
            r == (self is Next),
    {
        match self {
            LexError::Next(..) => true,
            LexError::Fail(..) => false,
        }
    }

    /// Turns a local backtracking signal into a final failure.
    pub fn into_fail(self) -> (r: LexError<K>)
        ensures
            r is Fail,
            r.spec_message() == self.spec_message(),
    {
        match self {
            LexError::Next(m, s) => LexError::Fail(m, s),
            LexError::Fail(m, s) => LexError::Fail(m, s),
        }
    }
}

/// An error value bound to the span it is about.
#[derive(Clone, Debug)]
pub struct ErrorMessage<T> {
    pub message: T,
    pub span: Span,
}

impl<E> From<LexError<E>> for ErrorMessage<E> {
    fn from(e: LexError<E>) -> (r: Self)
        ensures
            r == e.spec_message(),
    {
        match e {
            LexError::Next(m, s) => ErrorMessage { message: m, span: s },
            LexError::Fail(m, s) => ErrorMessage { message: m, span: s },
        }
    }
}

impl<E> vstd::std_specs::convert::FromSpecImpl<LexError<E>> for ErrorMessage<E> {
    open spec fn obeys_from_spec() -> bool {
        true
    }

    open spec fn from_spec(e: LexError<E>) -> Self {
        e.spec_message()
    }
}

} // verus!
