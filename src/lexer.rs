use vstd::prelude::*;

use vstd::utf8::encode_utf8;

use crate::error::ErrorKind;

verus! {

/// What a token of template source is.
#[derive(Clone, Copy, Debug, PartialEq, Eq, Structural)]
pub enum TokenKind {
    /// A run of literal text.
    Lit,
    /// `{{ expr }}`: an expression whose value is escaped.
    Escaped,
    /// `{{{ expr }}}`: an expression written as it is.
    Raw,
    /// `{{# name args }}`: a block opener.
    Open,
    /// `{{/ name }}`: a block closer.
    Close,
    /// `{{! ... }}`: a comment.
    Comment,
    /// `{{> path }}`: a partial inclusion.
    Partial,
}

/// A token with its byte range `[lo, hi)` and its whitespace-control
/// sigils: `~` just inside the opening and the closing delimiter.
#[derive(Clone, Copy, Debug, PartialEq, Eq, Structural)]
pub struct Token {
    pub kind: TokenKind,
    pub lo: usize,
    pub hi: usize,
    pub ws_before: bool,
    pub ws_after: bool,
}

pub open spec fn pair_at(b: Seq<u8>, j: int, c: u8) -> bool {
    0 <= j && j + 1 < b.len() && b[j] == c && b[j + 1] == c
}

/// First `j >= i` where `cc` starts, or the length when there is none.
pub open spec fn find_pair(b: Seq<u8>, c: u8, i: int) -> int
    decreases b.len() - i,
{
    if i >= b.len() {
        b.len() as int
    } else if pair_at(b, i, c) {
        i
    } else {
        find_pair(b, c, i + 1)
    }
}

pub open spec fn triple_at(b: Seq<u8>, j: int) -> bool {
    pair_at(b, j, 125u8) && j + 2 < b.len() && b[j + 2] == 125u8
}

/// First `j >= i` where `}}}` starts, or the length when there is none.
pub open spec fn find_triple(b: Seq<u8>, i: int) -> int
    decreases b.len() - i,
{
    if i >= b.len() {
        b.len() as int
    } else if triple_at(b, i) {
        i
    } else {
        find_triple(b, i + 1)
    }
}

/// Kind of the tag whose content starts at `i` (after the opener and an
/// optional `~`).
pub open spec fn tag_kind(b: Seq<u8>, i: int, raw: bool) -> TokenKind {
    if raw {
        TokenKind::Raw
    } else if i < b.len() && b[i] == 35u8 {
        TokenKind::Open
    } else if i < b.len() && b[i] == 47u8 {
        TokenKind::Close
    } else if i < b.len() && b[i] == 33u8 {
        TokenKind::Comment
    } else if i < b.len() && b[i] == 62u8 {
        TokenKind::Partial
    } else {
        TokenKind::Escaped
    }
}

/// The tag that starts with `{{` at `pos`, or the uncompleted error when its
/// closer is missing.
pub open spec fn tag_spec(b: Seq<u8>, pos: int) -> Result<Token, (ErrorKind, int)> {
    let raw = pos + 2 < b.len() && b[pos + 2] == 123u8;
    let open = if raw {
        3int
    } else {
        2int
    };
    let end = if raw {
        find_triple(b, pos + open)
    } else {
        find_pair(b, 125u8, pos + open)
    };
    if end >= b.len() {
        Err((ErrorKind::Uncompleted, pos))
    } else {
        let ws_before = pos + open < end && b[pos + open] == 126u8;
        let content = if ws_before {
            pos + open + 1
        } else {
            pos + open
        };
        Ok(
            Token {
                kind: tag_kind(b, content, raw),
                lo: pos as usize,
                hi: (end + open) as usize,
                ws_before,
                ws_after: end > content && b[end - 1] == 126u8,
            },
        )
    }
}

/// The tokens of `b` from `pos` on: literal runs up to the next `{{`, and
/// tags up to their closer. An error names its kind and where it starts: a
/// tag that is never closed, or a `}}` closer that no tag opened.
pub open spec fn lex_spec(b: Seq<u8>, pos: int) -> Result<Seq<Token>, (ErrorKind, int)>
    decreases b.len() - pos,
{
    if pos >= b.len() || pos < 0 {
        Ok(Seq::empty())
    } else if pair_at(b, pos, 123u8) {
        match tag_spec(b, pos) {
            Err(e) => Err(e),
            Ok(t) => if t.hi as int <= pos || t.hi as int > b.len() {
                Err((ErrorKind::Uncompleted, pos))
            } else {
                match lex_spec(b, t.hi as int) {
                    Err(e) => Err(e),
                    Ok(rest) => Ok(seq![t] + rest),
                }
            },
        }
    } else {
        let e = find_pair(b, 123u8, pos);
        let t = Token {
            kind: TokenKind::Lit,
            lo: pos as usize,
            hi: e as usize,
            ws_before: false,
            ws_after: false,
        };
        if e <= pos || e > b.len() {
            Err((ErrorKind::Uncompleted, pos))
        } else if find_pair(b, 125u8, pos) < e {
            Err((ErrorKind::Char('}'), find_pair(b, 125u8, pos)))
        } else {
            match lex_spec(b, e) {
                Err(x) => Err(x),
                Ok(rest) => Ok(seq![t] + rest),
            }
        }
    }
}

proof fn lemma_find_pair_bounds(b: Seq<u8>, c: u8, i: int)
    requires
        0 <= i <= b.len(),
    ensures
        i <= find_pair(b, c, i) <= b.len(),
        find_pair(b, c, i) < b.len() ==> pair_at(b, find_pair(b, c, i), c),
        forall|j: int| i <= j < find_pair(b, c, i) ==> !pair_at(b, j, c),
    decreases b.len() - i,
{
    if i < b.len() && !pair_at(b, i, c) {
        lemma_find_pair_bounds(b, c, i + 1);
    }
}

proof fn lemma_find_triple_bounds(b: Seq<u8>, i: int)
    requires
        0 <= i <= b.len(),
    ensures
        i <= find_triple(b, i) <= b.len(),
        find_triple(b, i) < b.len() ==> triple_at(b, find_triple(b, i)),
    decreases b.len() - i,
{
    if i < b.len() && !triple_at(b, i) {
        lemma_find_triple_bounds(b, i + 1);
    }
}

fn scan_pair(b: &[u8], c: u8, i: usize) -> (r: usize)
    requires
        i <= b@.len(),
    ensures
        r == find_pair(b@, c, i as int),
{
    let n = b.len();
    let mut j: usize = i;
    while j < n && !(j + 1 < n && b[j] == c && b[j + 1] == c)
        invariant
            n == b@.len(),
            i <= j <= n,
            find_pair(b@, c, j as int) == find_pair(b@, c, i as int),
        decreases n - j,
    {
        j = j + 1;
    }
    j
}

fn scan_triple(b: &[u8], i: usize) -> (r: usize)
    requires
        i <= b@.len(),
    ensures
        r == find_triple(b@, i as int),
{
    let n = b.len();
    let mut j: usize = i;
    while j < n && !(n - j > 2 && b[j] == 125u8 && b[j + 1] == 125u8 && b[j + 2] == 125u8)
        invariant
            n == b@.len(),
            i <= j <= n,
            find_triple(b@, j as int) == find_triple(b@, i as int),
        decreases n - j,
    {
        j = j + 1;
    }
    j
}

fn read_tag(b: &[u8], pos: usize) -> (r: Result<Token, (ErrorKind, usize)>)
    requires
        pair_at(b@, pos as int, 123u8),
    ensures
        r matches Ok(t) ==> tag_spec(b@, pos as int) == Ok::<Token, (ErrorKind, int)>(t),
        r matches Ok(t) ==> t.lo == pos && pos < t.hi <= b@.len(),
        r matches Err(e) ==> tag_spec(b@, pos as int) == Err::<Token, (ErrorKind, int)>(
            (e.0, e.1 as int),
        ),
{
    let n = b.len();
    let raw = pos + 2 < n && b[pos + 2] == 123u8;
    let open: usize = if raw {
        3
    } else {
        2
    };
    let end = if raw {
        scan_triple(b, pos + open)
    } else {
        scan_pair(b, 125u8, pos + open)
    };
    if end >= n {
        return Err((ErrorKind::Uncompleted, pos));
    }
    proof {
        if raw {
            lemma_find_triple_bounds(b@, pos + open);
        } else {
            lemma_find_pair_bounds(b@, 125u8, pos + open);
        }
    }
    let ws_before = pos + open < end && b[pos + open] == 126u8;
    let content = if ws_before {
        pos + open + 1
    } else {
        pos + open
    };
    let kind = if raw {
        TokenKind::Raw
    } else if content < n && b[content] == 35u8 {
        TokenKind::Open
    } else if content < n && b[content] == 47u8 {
        TokenKind::Close
    } else if content < n && b[content] == 33u8 {
        TokenKind::Comment
    } else if content < n && b[content] == 62u8 {
        TokenKind::Partial
    } else {
        TokenKind::Escaped
    };
    Ok(
        Token {
            kind,
            lo: pos,
            hi: end + open,
            ws_before,
            ws_after: end > content && b[end - 1] == 126u8,
        },
    )
}

/// A token is nonempty; a literal run holds no `{{`, any other token
/// starts with one.
pub open spec fn well_formed(b: Seq<u8>, t: Token) -> bool {
    &&& t.lo < t.hi
    &&& t.kind == TokenKind::Lit ==> forall|j: int| t.lo <= j < t.hi ==> !pair_at(b, j, 123u8)
    &&& t.kind != TokenKind::Lit ==> pair_at(b, t.lo as int, 123u8)
}

pub open spec fn adjacent(ts: Seq<Token>, i: int) -> bool {
    ts[i].hi == ts[i + 1].lo
}

/// `ts` covers `[from, to)` without gaps or overlaps, every token well formed.
pub open spec fn tiles(b: Seq<u8>, ts: Seq<Token>, from: int, to: int) -> bool {
    &&& ts.len() == 0 ==> from == to
    &&& ts.len() > 0 ==> ts[0].lo == from && ts.last().hi == to
    &&& forall|i: int| 0 <= i < ts.len() - 1 ==> #[trigger] adjacent(ts, i)
    &&& forall|i: int| 0 <= i < ts.len() ==> #[trigger] well_formed(b, ts[i])
}

proof fn lemma_tiles_cons(b: Seq<u8>, t: Token, rest: Seq<Token>, to: int)
    requires
        tiles(b, rest, t.hi as int, to),
        well_formed(b, t),
    ensures
        tiles(b, seq![t] + rest, t.lo as int, to),
{
    let ts = seq![t] + rest;
    assert(ts[0] == t);
    assert(well_formed(b, t));
    assert forall|i: int| 0 <= i < ts.len() - 1 implies #[trigger] adjacent(ts, i) by {
        if i > 0 {
            assert(adjacent(rest, i - 1));
            assert(ts[i] == rest[i - 1]);
            assert(ts[i + 1] == rest[i]);
        }
    }
    assert forall|i: int| 0 <= i < ts.len() implies #[trigger] well_formed(b, ts[i]) by {
        if i > 0 {
            assert(ts[i] == rest[i - 1]);
            assert(well_formed(b, rest[i - 1]));
        }
    }
    if rest.len() > 0 {
        assert(ts.last() == rest.last());
    }
}

/// The lexer loses nothing: the tokens of a source cover it from start to
/// end, literal runs never hold an opener, and every tag starts with one.
pub proof fn lemma_lex_tiles(b: Seq<u8>, pos: int)
    requires
        0 <= pos <= b.len() <= usize::MAX,
        lex_spec(b, pos) is Ok,
    ensures
        tiles(b, lex_spec(b, pos)->Ok_0, pos, b.len() as int),
    decreases b.len() - pos,
{
    if pos < b.len() {
        if pair_at(b, pos, 123u8) {
            let t = tag_spec(b, pos)->Ok_0;
            assert(pos < t.hi <= b.len());
            lemma_lex_tiles(b, t.hi as int);
            lemma_tiles_cons(b, t, lex_spec(b, t.hi as int)->Ok_0, b.len() as int);
        } else {
            let e = find_pair(b, 123u8, pos);
            lemma_find_pair_bounds(b, 123u8, pos);
            assert(pos < e <= b.len());
            let t = Token {
                kind: TokenKind::Lit,
                lo: pos as usize,
                hi: e as usize,
                ws_before: false,
                ws_after: false,
            };
            assert(t.hi as int == e);
            lemma_lex_tiles(b, e);
            lemma_tiles_cons(b, t, lex_spec(b, e)->Ok_0, b.len() as int);
        }
    }
}

pub open spec fn prepend(
    ts: Seq<Token>,
    r: Result<Seq<Token>, (ErrorKind, int)>,
) -> Result<Seq<Token>, (ErrorKind, int)> {
    match r {
        Ok(rest) => Ok(ts + rest),
        Err(e) => Err(e),
    }
}

/// Splits template source into tokens, each with its byte range. Fails with
/// `Uncompleted` where a tag is never closed, and with `Char('}')` at a `}}`
/// that closes no tag.
pub fn lex(src: &str) -> (r: Result<Vec<Token>, (ErrorKind, usize)>)
    ensures
        r matches Ok(ts) ==> lex_spec(encode_utf8(src@), 0) == Ok::<
            Seq<Token>,
            (ErrorKind, int),
        >(ts@),
        r matches Err(e) ==> lex_spec(encode_utf8(src@), 0) == Err::<
            Seq<Token>,
            (ErrorKind, int),
        >((e.0, e.1 as int)),
        r matches Ok(ts) ==> forall|k: int|
            0 <= k < ts@.len() ==> (#[trigger] ts@[k]).lo < ts@[k].hi <= encode_utf8(src@).len(),
        r matches Err(e) ==> e.1 < encode_utf8(src@).len(),
{
    let b = src.as_bytes();
    let n = b.len();
    let mut toks: Vec<Token> = Vec::new();
    let mut pos: usize = 0;
    proof {
        assert(toks@ + Seq::<Token>::empty() =~= toks@);
        assert(prepend(toks@, lex_spec(b@, 0)) =~~= lex_spec(b@, 0)) by {
            match lex_spec(b@, 0) {
                Ok(rest) => {
                    assert(toks@ + rest =~= rest);
                },
                Err(_) => {},
            }
        }
    }
    while pos < n
        invariant
            n == b@.len(),
            b@ == encode_utf8(src@),
            pos <= n,
            prepend(toks@, lex_spec(b@, pos as int)) == lex_spec(b@, 0),
            forall|k: int| 0 <= k < toks@.len() ==> (#[trigger] toks@[k]).lo < toks@[k].hi <= n,
        decreases n - pos,
    {
        let ghost before = toks@;
        if pos + 1 < n && b[pos] == 123u8 && b[pos + 1] == 123u8 {
            match read_tag(b, pos) {
                Ok(t) => {
                    if t.hi <= pos {
                        return Err((ErrorKind::Uncompleted, pos));
                    }
                    toks.push(t);
                    proof {
                        match lex_spec(b@, t.hi as int) {
                            Ok(rest) => {
                                assert(before + (seq![t] + rest) =~= toks@ + rest);
                            },
                            Err(_) => {},
                        }
                    }
                    pos = t.hi;
                },
                Err(e) => {
                    return Err(e);
                },
            }
        } else {
            let e = scan_pair(b, 123u8, pos);
            proof {
                lemma_find_pair_bounds(b@, 123u8, pos as int);
            }
            let c = scan_pair(b, 125u8, pos);
            if c < e {
                return Err((ErrorKind::Char('}'), c));
            }
            let t = Token { kind: TokenKind::Lit, lo: pos, hi: e, ws_before: false, ws_after: false };
            toks.push(t);
            proof {
                match lex_spec(b@, e as int) {
                    Ok(rest) => {
                        assert(before + (seq![t] + rest) =~= toks@ + rest);
                    },
                    Err(_) => {},
                }
            }
            pos = e;
        }
    }
    proof {
        assert(toks@ + Seq::<Token>::empty() =~= toks@);
    }
    Ok(toks)
}

} // verus!
