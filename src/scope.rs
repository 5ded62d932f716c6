use vstd::prelude::*;

use crate::error::ErrorKind;
use crate::text::{decimal, digit_char, push_decimal};

verus! {

/// What an enclosing `each` binds: a runtime loop at its level, or one item
/// of an unrolled constant collection with its 1-based position.
#[derive(Debug, PartialEq, Eq)]
pub enum Level {
    Runtime,
    Const(String, usize),
}

/// What an enclosing `each` binds, as contracts see it.
pub ghost enum LevelV {
    Runtime,
    Const(Seq<char>, nat),
}

pub open spec fn level_view(l: Level) -> LevelV {
    match l {
        Level::Runtime => LevelV::Runtime,
        Level::Const(item, k) => LevelV::Const(item@, k as nat),
    }
}

pub open spec fn levels_view(s: Seq<Level>) -> Seq<LevelV> {
    s.map_values(|l: Level| level_view(l))
}

/// A piece of a host expression: plain text, or a reference to a template
/// binding (`this`, `index`, a field) reached through `up` uses of `super::`.
#[derive(Debug, PartialEq, Eq)]
pub enum Part {
    Text(String),
    Ident(usize, String),
}

pub open spec fn is_digit(c: char) -> bool {
    '0' <= c && c <= '9'
}

/// `_0`, `_1`, ...: a field captured by position.
pub open spec fn is_positional(name: Seq<char>) -> bool {
    name.len() >= 2 && name[0] == '_' && forall|i: int| 1 <= i < name.len() ==> is_digit(
        #[trigger] name[i],
    )
}

/// How a field name is written after a `.`.
pub open spec fn field_spec(name: Seq<char>) -> Seq<char> {
    if is_positional(name) {
        name.drop_first()
    } else {
        name
    }
}

pub open spec fn item_var(l: nat) -> Seq<char> {
    "__item_"@ + decimal(l)
}

pub open spec fn index_var(l: nat) -> Seq<char> {
    "__index_"@ + decimal(l)
}

/// The host expression a binding stands for. Level 0 is the template
/// itself; level `l > 0` is the `l`-th enclosing `each`, counted outward-in.
pub open spec fn resolve_spec(scopes: Seq<LevelV>, up: nat, name: Seq<char>) -> Result<
    Seq<char>,
    ErrorKind,
> {
    if up > scopes.len() {
        Err(ErrorKind::SuperDepth)
    } else {
        let l = (scopes.len() - up) as nat;
        if l == 0 {
            if name == "this"@ {
                Ok("self"@)
            } else {
                Ok("self."@ + field_spec(name))
            }
        } else {
            match scopes[l - 1] {
                LevelV::Runtime => if name == "this"@ {
                    Ok(item_var(l))
                } else if name == "index"@ {
                    Ok("("@ + index_var(l) + " + 1)"@)
                } else {
                    Ok(item_var(l) + "."@ + field_spec(name))
                },
                LevelV::Const(item, k) => if name == "this"@ {
                    Ok("("@ + item + ")"@)
                } else if name == "index"@ {
                    Ok(decimal(k as nat))
                } else {
                    Ok("("@ + item + ")."@ + field_spec(name))
                },
            }
        }
    }
}

fn positional(name: &str) -> (r: bool)
    ensures
        r == is_positional(name@),
{
    let n = name.unicode_len();
    if n < 2 || name.get_char(0) != '_' {
        return false;
    }
    let mut i: usize = 1;
    while i < n
        invariant
            2 <= n == name@.len(),
            1 <= i <= n,
            forall|j: int| 1 <= j < i ==> is_digit(#[trigger] name@[j]),
        decreases n - i,
    {
        let c = name.get_char(i);
        if !('0' <= c && c <= '9') {
            return false;
        }
        i = i + 1;
    }
    true
}

fn push_field(out: &mut String, name: &str)
    ensures
        final(out)@ == old(out)@ + field_spec(name@),
{
    if positional(name) {
        let n = name.unicode_len();
        out.append(name.substring_char(1, n));
        proof {
            assert(name@.subrange(1, n as int) =~= name@.drop_first());
        }
    } else {
        out.append(name);
    }
}

pub(crate) fn str_eq(a: &str, b: &str) -> (r: bool)
    ensures
        r == (a@ == b@),
{
    let n = a.unicode_len();
    if n != b.unicode_len() {
        return false;
    }
    let mut i: usize = 0;
    while i < n
        invariant
            n == a@.len() == b@.len(),
            i <= n,
            forall|j: int| 0 <= j < i ==> a@[j] == b@[j],
        decreases n - i,
    {
        if a.get_char(i) != b.get_char(i) {
            return false;
        }
        i = i + 1;
    }
    proof {
        assert(a@ =~= b@);
    }
    true
}

/// Resolves the binding `name`, reached through `up` uses of `super::`,
/// against the enclosing blocks `scopes` (innermost last).
pub fn resolve(scopes: &Vec<Level>, up: usize, name: &str) -> (r: Result<String, ErrorKind>)
    ensures
        r matches Ok(s) ==> resolve_spec(levels_view(scopes@), up as nat, name@) == Ok::<Seq<char>, ErrorKind>(
            s@,
        ),
        r matches Err(e) ==> resolve_spec(levels_view(scopes@), up as nat, name@) == Err::<Seq<char>, ErrorKind>(
            e,
        ),
{
    if up > scopes.len() {
        return Err(ErrorKind::SuperDepth);
    }
    let l = scopes.len() - up;
    let is_this = str_eq(name, "this");
    let is_index = str_eq(name, "index");
    proof {
        reveal_strlit("this");
        reveal_strlit("index");
    }
    let ghost spec = resolve_spec(levels_view(scopes@), up as nat, name@);
    let ghost ln = l as nat;
    let mut out = String::new();
    if l == 0 {
        if is_this {
            out.append("self");
        } else {
            out.append("self.");
            push_field(&mut out, name);
        }
        proof {
            assert(out@ =~= spec->Ok_0);
        }
    } else {
        match &scopes[l - 1] {
            Level::Runtime => {
                if is_this {
                    out.append("__item_");
                    push_decimal(&mut out, l);
                    proof {
                        assert(out@ =~= item_var(ln));
                    }
                } else if is_index {
                    out.append("(__index_");
                    push_decimal(&mut out, l);
                    out.append(" + 1)");
                    proof {
                        reveal_strlit("(__index_");
                        reveal_strlit("(");
                        reveal_strlit("__index_");
                        assert(out@ =~= "("@ + index_var(ln) + " + 1)"@);
                    }
                } else {
                    out.append("__item_");
                    push_decimal(&mut out, l);
                    out.append(".");
                    push_field(&mut out, name);
                    proof {
                        assert(out@ =~= item_var(ln) + "."@ + field_spec(name@));
                    }
                }
            },
            Level::Const(item, k) => {
                if is_this {
                    out.append("(");
                    out.append(item.as_str());
                    out.append(")");
                } else if is_index {
                    push_decimal(&mut out, *k);
                } else {
                    out.append("(");
                    out.append(item.as_str());
                    out.append(").");
                    push_field(&mut out, name);
                }
            },
        }
        proof {
            assert(out@ =~= spec->Ok_0);
        }
    }
    Ok(out)
}

/// The host expression written by `parts`, each binding resolved.
pub open spec fn parts_spec(scopes: Seq<LevelV>, parts: Seq<Part>) -> Result<
    Seq<char>,
    ErrorKind,
>
    decreases parts.len(),
{
    if parts.len() == 0 {
        Ok(Seq::empty())
    } else {
        match parts_spec(scopes, parts.drop_last()) {
            Err(e) => Err(e),
            Ok(s) => match parts.last() {
                Part::Text(t) => Ok(s + t@),
                Part::Ident(up, name) => match resolve_spec(scopes, up as nat, name@) {
                    Err(e) => Err(e),
                    Ok(x) => Ok(s + x),
                },
            },
        }
    }
}

/// Writes the host expression of `parts`, each binding resolved.
pub fn resolve_parts(scopes: &Vec<Level>, parts: &Vec<Part>) -> (r: Result<String, ErrorKind>)
    ensures
        r matches Ok(s) ==> parts_spec(levels_view(scopes@), parts@) == Ok::<Seq<char>, ErrorKind>(s@),
        r matches Err(e) ==> parts_spec(levels_view(scopes@), parts@) == Err::<Seq<char>, ErrorKind>(e),
{
    let mut out = String::new();
    let mut i: usize = 0;
    while i < parts.len()
        invariant
            i <= parts@.len(),
            parts_spec(levels_view(scopes@), parts@.subrange(0, i as int)) == Ok::<Seq<char>, ErrorKind>(
                out@,
            ),
        decreases parts@.len() - i,
    {
        let ghost sub = parts@.subrange(0, i as int + 1);
        proof {
            assert(sub.drop_last() =~= parts@.subrange(0, i as int));
        }
        match &parts[i] {
            Part::Text(t) => out.append(t.as_str()),
            Part::Ident(up, name) => match resolve(scopes, *up, name.as_str()) {
                Ok(x) => out.append(x.as_str()),
                Err(e) => {
                    proof {
                        lemma_parts_err_stays(levels_view(scopes@), parts@, i as int + 1);
                    }
                    return Err(e);
                },
            },
        }
        i = i + 1;
    }
    proof {
        assert(parts@.subrange(0, i as int) =~= parts@);
    }
    Ok(out)
}

proof fn lemma_parts_err_stays(scopes: Seq<LevelV>, parts: Seq<Part>, k: int)
    requires
        0 <= k <= parts.len(),
        parts_spec(scopes, parts.subrange(0, k)) is Err,
    ensures
        parts_spec(scopes, parts) == parts_spec(scopes, parts.subrange(0, k)),
    decreases parts.len() - k,
{
    if k < parts.len() {
        let next = parts.subrange(0, k + 1);
        assert(next.drop_last() =~= parts.subrange(0, k));
        lemma_parts_err_stays(scopes, parts, k + 1);
    } else {
        assert(parts.subrange(0, k) =~= parts);
    }
}

/// The 1-based position that `index` names at level `l`.
pub open spec fn index_at(scopes: Seq<LevelV>, l: int) -> Seq<char> {
    match scopes[l - 1] {
        LevelV::Runtime => "("@ + index_var(l as nat) + " + 1)"@,
        LevelV::Const(_, k) => decimal(k),
    }
}

/// Scope resolution: `index` names the position in the innermost enclosing
/// `each`, `super::index` the position one level out, and a `super::` chain
/// longer than the nesting is an error.
pub proof fn lemma_scope_resolution(scopes: Seq<LevelV>, up: nat, name: Seq<char>)
    ensures
        scopes.len() >= 1 ==> resolve_spec(scopes, 0, "index"@) == Ok::<Seq<char>, ErrorKind>(
            index_at(scopes, scopes.len() as int),
        ),
        scopes.len() >= 2 ==> resolve_spec(scopes, 1, "index"@) == Ok::<Seq<char>, ErrorKind>(
            index_at(scopes, scopes.len() - 1),
        ),
        up > scopes.len() ==> resolve_spec(scopes, up, name) == Err::<Seq<char>, ErrorKind>(
            ErrorKind::SuperDepth,
        ),
{
    reveal_strlit("index");
    reveal_strlit("this");
    assert("index"@.len() != "this"@.len());
    assert("index"@ != "this"@);
}

proof fn lemma_decimal_len(n: nat)
    ensures
        n < 10 ==> decimal(n).len() == 1,
        n >= 10 ==> decimal(n).len() >= 2,
    decreases n,
{
    if n >= 10 {
        lemma_decimal_len(n / 10);
    }
}

proof fn lemma_decimal_injective(n: nat, m: nat)
    requires
        decimal(n) == decimal(m),
    ensures
        n == m,
    decreases n,
{
    lemma_decimal_len(n);
    lemma_decimal_len(m);
    if n >= 10 && m >= 10 {
        let a = decimal(n);
        assert(a.last() == digit_char(n % 10));
        assert(decimal(m).last() == digit_char(m % 10));
        assert(a.drop_last() =~= decimal(n / 10));
        assert(decimal(m).drop_last() =~= decimal(m / 10));
        lemma_decimal_injective(n / 10, m / 10);
    } else if n < 10 && m < 10 {
        assert(decimal(n)[0] == digit_char(n));
        assert(decimal(m)[0] == digit_char(m));
    }
}

/// Bindings of different levels get different names, so flattening nested
/// loops never makes two of them collide.
pub proof fn lemma_level_names_distinct(l1: nat, l2: nat)
    requires
        l1 != l2,
    ensures
        index_var(l1) != index_var(l2),
        item_var(l1) != item_var(l2),
{
    let p = "__index_"@;
    let q = "__item_"@;
    if index_var(l1) == index_var(l2) {
        assert(index_var(l1).subrange(p.len() as int, index_var(l1).len() as int) =~= decimal(l1));
        assert(index_var(l2).subrange(p.len() as int, index_var(l2).len() as int) =~= decimal(l2));
        lemma_decimal_injective(l1, l2);
    }
    if item_var(l1) == item_var(l2) {
        assert(item_var(l1).subrange(q.len() as int, item_var(l1).len() as int) =~= decimal(l1));
        assert(item_var(l2).subrange(q.len() as int, item_var(l2).len() as int) =~= decimal(l2));
        lemma_decimal_injective(l1, l2);
    }
}

} // verus!
