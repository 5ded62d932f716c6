use vstd::prelude::*;
use vstd::utf8::encode_utf8;

use crate::print::{contains, occurs_at};

verus! {

/// Relies on `str::get` with a byte range: the text between two character
/// boundaries, `None` when the range is out of bounds or splits a character.
#[verifier::external_body]
pub(crate) fn byte_slice(s: &str, lo: usize, hi: usize) -> (r: Option<String>)
    ensures
        lo <= hi <= encode_utf8(s@).len() && vstd::utf8::is_char_boundary(encode_utf8(s@), lo as int)
            && vstd::utf8::is_char_boundary(encode_utf8(s@), hi as int) ==> r is Some,
        r matches Some(t) ==> lo <= hi <= encode_utf8(s@).len() && encode_utf8(t@) == encode_utf8(
            s@,
        ).subrange(lo as int, hi as int),
{
    s.get(lo..hi).map(|t| t.to_string())
}

/// Relies on `String::push`: appends one character.
#[verifier::external_body]
pub(crate) fn push_char(s: &mut String, c: char)
    ensures
        final(s)@ == old(s)@.push(c),
{
    s.push(c);
}

pub open spec fn digit_char(d: nat) -> char {
    if d == 0 {
        '0'
    } else if d == 1 {
        '1'
    } else if d == 2 {
        '2'
    } else if d == 3 {
        '3'
    } else if d == 4 {
        '4'
    } else if d == 5 {
        '5'
    } else if d == 6 {
        '6'
    } else if d == 7 {
        '7'
    } else if d == 8 {
        '8'
    } else {
        '9'
    }
}

/// Decimal digits of `n`, most significant first, without leading zeros.
pub open spec fn decimal(n: nat) -> Seq<char>
    decreases n,
{
    if n < 10 {
        seq![digit_char(n)]
    } else {
        decimal(n / 10).push(digit_char(n % 10))
    }
}

fn digit(d: usize) -> (c: char)
    requires
        d < 10,
    ensures
        c == digit_char(d as nat),
{
    if d == 0 {
        '0'
    } else if d == 1 {
        '1'
    } else if d == 2 {
        '2'
    } else if d == 3 {
        '3'
    } else if d == 4 {
        '4'
    } else if d == 5 {
        '5'
    } else if d == 6 {
        '6'
    } else if d == 7 {
        '7'
    } else if d == 8 {
        '8'
    } else {
        '9'
    }
}

/// Appends the decimal form of `n` to `out`.
pub fn push_decimal(out: &mut String, n: usize)
    ensures
        final(out)@ == old(out)@ + decimal(n as nat),
    decreases n,
{
    if n < 10 {
        push_char(out, digit(n));
    } else {
        push_decimal(out, n / 10);
        push_char(out, digit(n % 10));
    }
}

/// What a character becomes inside a Rust string literal.
pub open spec fn escaped(c: char) -> Seq<char> {
    if c == '"' {
        seq!['\\', '"']
    } else if c == '\\' {
        seq!['\\', '\\']
    } else if c == '\n' {
        seq!['\\', 'n']
    } else if c == '\r' {
        seq!['\\', 'r']
    } else if c == '\t' {
        seq!['\\', 't']
    } else {
        seq![c]
    }
}

pub open spec fn escaped_all(s: Seq<char>) -> Seq<char>
    decreases s.len(),
{
    if s.len() == 0 {
        Seq::empty()
    } else {
        escaped_all(s.drop_last()) + escaped(s.last())
    }
}

/// A Rust string literal whose value is `s`.
pub open spec fn str_literal(s: Seq<char>) -> Seq<char> {
    seq!['"'] + escaped_all(s) + seq!['"']
}

/// Appends a Rust string literal holding `s` to `out`.
pub fn push_str_literal(out: &mut String, s: &str)
    ensures
        final(out)@ == old(out)@ + str_literal(s@),
{
    let ghost start = out@;
    push_char(out, '"');
    let n = s.unicode_len();
    let mut i: usize = 0;
    while i < n
        invariant
            n == s@.len(),
            i <= n,
            out@ == start + seq!['"'] + escaped_all(s@.subrange(0, i as int)),
        decreases n - i,
    {
        let c = s.get_char(i);
        let ghost prev = out@;
        if c == '"' {
            push_char(out, '\\');
            push_char(out, '"');
        } else if c == '\\' {
            push_char(out, '\\');
            push_char(out, '\\');
        } else if c == '\n' {
            push_char(out, '\\');
            push_char(out, 'n');
        } else if c == '\r' {
            push_char(out, '\\');
            push_char(out, 'r');
        } else if c == '\t' {
            push_char(out, '\\');
            push_char(out, 't');
        } else {
            push_char(out, c);
        }
        proof {
            let sub = s@.subrange(0, i as int + 1);
            assert(sub.drop_last() =~= s@.subrange(0, i as int));
            assert(sub.last() == c);
            assert(out@ =~= prev + escaped(c));
        }
        i = i + 1;
    }
    push_char(out, '"');
    proof {
        assert(s@.subrange(0, n as int) =~= s@);
        assert(out@ =~= start + str_literal(s@));
    }
}

/// The characters of `s`, one by one.
pub fn chars_of(s: &str) -> (r: Vec<char>)
    ensures
        r@ == s@,
{
    let mut v: Vec<char> = Vec::new();
    for c in it: s.chars()
        invariant
            v@ == it.seq().subrange(0, it.index() as int),
            it.seq() == s@,
    {
        v.push(c);
    }
    v
}

pub open spec fn is_ws(c: char) -> bool {
    c == ' ' || c == '\n' || c == '\t' || c == '\r'
}

/// The nearest character before position `i` that is not whitespace.
pub open spec fn solid_before(s: Seq<char>, i: int) -> Option<char>
    decreases i,
{
    if i <= 0 {
        None
    } else if is_ws(s[i - 1]) {
        solid_before(s, i - 1)
    } else {
        Some(s[i - 1])
    }
}

/// The nearest character at or after position `i` that is not whitespace.
pub open spec fn solid_from(s: Seq<char>, i: int) -> Option<char>
    decreases s.len() - i,
{
    if i >= s.len() || i < 0 {
        None
    } else if is_ws(s[i]) {
        solid_from(s, i + 1)
    } else {
        Some(s[i])
    }
}

/// Whitespace that only separates a tag's `>` from the next tag's `<`.
pub open spec fn between_tags(s: Seq<char>, i: int) -> bool {
    is_ws(s[i]) && solid_before(s, i) == Some('>') && solid_from(s, i + 1) == Some('<')
}

/// The first `i` characters with each whitespace run between two tags
/// written as one space.
pub open spec fn min_prefix(s: Seq<char>, i: int) -> Seq<char>
    decreases i,
{
    if i <= 0 {
        Seq::empty()
    } else if between_tags(s, i - 1) {
        if i >= 2 && is_ws(s[i - 2]) {
            min_prefix(s, i - 1)
        } else {
            min_prefix(s, i - 1).push(' ')
        }
    } else {
        min_prefix(s, i - 1).push(s[i - 1])
    }
}

/// Text whose whitespace shows as it is written.
pub open spec fn keeps_whitespace(s: Seq<char>) -> bool {
    (exists|i: int| occurs_at(s, "<pre"@, i)) || (exists|i: int| occurs_at(s, "<textarea"@, i))
}

/// `s` with each whitespace run between two tags collapsed to one space,
/// which a page shows the same; text with preformatted elements is kept as
/// it is.
pub open spec fn min_text(s: Seq<char>) -> Seq<char> {
    if keeps_whitespace(s) {
        s
    } else {
        min_prefix(s, s.len() as int)
    }
}

fn is_space(c: char) -> (r: bool)
    ensures
        r == is_ws(c),
{
    c == ' ' || c == '\n' || c == '\t' || c == '\r'
}

/// Collapses each whitespace run between two tags of an HTML text to one
/// space, unless the text holds preformatted elements.
pub fn minify_text(s: &str) -> (r: String)
    ensures
        r@ == min_text(s@),
{
    if contains(s, "<pre") || contains(s, "<textarea") {
        return s.to_owned();
    }
    let cs = chars_of(s);
    let n = cs.len();
    let mut out = String::new();
    let mut last: Option<char> = None;
    let mut i: usize = 0;
    while i < n
        invariant
            n == cs@.len(),
            cs@ == s@,
            i <= n,
            last == solid_before(s@, i as int),
            out@ == min_prefix(s@, i as int),
        decreases n - i,
    {
        let c = cs[i];
        let mut drop = false;
        if is_space(c) && last == Some('>') {
            let mut j: usize = i + 1;
            while j < n && is_space(cs[j])
                invariant
                    n == cs@.len(),
                    cs@ == s@,
                    i < j <= n,
                    solid_from(s@, j as int) == solid_from(s@, i as int + 1),
                decreases n - j,
            {
                j = j + 1;
            }
            drop = j < n && cs[j] == '<';
        }
        if !drop {
            push_char(&mut out, c);
        } else if !(i >= 1 && is_space(cs[i - 1])) {
            push_char(&mut out, ' ');
        }
        if !is_space(c) {
            last = Some(c);
        }
        i = i + 1;
    }
    out
}

/// Whitespace other than a newline.
pub open spec fn is_blank(c: char) -> bool {
    c == ' ' || c == '\t' || c == '\r'
}

/// Start of the run of blanks that ends at position `i`.
pub open spec fn blank_back(s: Seq<char>, i: int) -> int
    decreases i,
{
    if i <= 0 {
        0
    } else if is_blank(s[i - 1]) {
        blank_back(s, i - 1)
    } else {
        i
    }
}

/// End of the run of blanks that starts at position `i`.
pub open spec fn blank_forward(s: Seq<char>, i: int) -> int
    decreases s.len() - i,
{
    if i >= s.len() {
        s.len() as int
    } else if is_blank(s[i]) {
        blank_forward(s, i + 1)
    } else {
        i
    }
}

/// `s` without its trailing blanks and, before them, at most one newline.
pub open spec fn trim_end_spec(s: Seq<char>) -> Seq<char> {
    let i = blank_back(s, s.len() as int);
    if i > 0 && s[i - 1] == '\n' {
        s.subrange(0, i - 1)
    } else {
        s.subrange(0, i)
    }
}

/// `s` without its leading blanks and, after them, at most one newline.
pub open spec fn trim_start_spec(s: Seq<char>) -> Seq<char> {
    let i = blank_forward(s, 0);
    if i < s.len() && s[i] == '\n' {
        s.subrange(i + 1, s.len() as int)
    } else {
        s.subrange(i, s.len() as int)
    }
}

fn is_blank_char(c: char) -> (r: bool)
    ensures
        r == is_blank(c),
{
    c == ' ' || c == '\t' || c == '\r'
}

/// Removes the trailing blanks of `s` and, before them, at most one newline.
pub fn trim_end_ws(s: &str) -> (r: String)
    ensures
        r@ == trim_end_spec(s@),
{
    let n = s.unicode_len();
    let mut i: usize = n;
    while i > 0 && is_blank_char(s.get_char(i - 1))
        invariant
            i <= n == s@.len(),
            blank_back(s@, i as int) == blank_back(s@, n as int),
        decreases i,
    {
        i = i - 1;
    }
    if i > 0 && s.get_char(i - 1) == '\n' {
        s.substring_char(0, i - 1).to_owned()
    } else {
        s.substring_char(0, i).to_owned()
    }
}

/// Removes the leading blanks of `s` and, after them, at most one newline.
pub fn trim_start_ws(s: &str) -> (r: String)
    ensures
        r@ == trim_start_spec(s@),
{
    let n = s.unicode_len();
    let mut i: usize = 0;
    while i < n && is_blank_char(s.get_char(i))
        invariant
            i <= n == s@.len(),
            blank_forward(s@, i as int) == blank_forward(s@, 0),
        decreases n - i,
    {
        i = i + 1;
    }
    if i < n && s.get_char(i) == '\n' {
        s.substring_char(i + 1, n).to_owned()
    } else {
        s.substring_char(i, n).to_owned()
    }
}

} // verus!
