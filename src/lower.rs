use vstd::prelude::*;

use crate::error::ErrorKind;
use crate::parser::{trim, trim_spec};
use crate::text::push_char;
use crate::hir::{hir_view, hirs_view, lemma_hirs_view_push, Each, HirV, IfElse, HIR};
use crate::scope::{
    index_var, item_var, level_view, levels_view, parts_spec, resolve_parts, str_eq, Level, LevelV,
    Part,
};
use crate::text::{decimal, push_decimal, trim_end_spec, trim_end_ws, trim_start_spec, trim_start_ws};

verus! {

/// Whitespace-control sigils of a block: before and after its opener, and
/// before and after its closer.
#[derive(Clone, Copy, Debug, PartialEq, Eq, Structural)]
pub struct Ws {
    pub open_before: bool,
    pub open_after: bool,
    pub close_before: bool,
    pub close_after: bool,
}

/// A parsed template node.
#[derive(Debug, PartialEq, Eq)]
pub enum Node {
    Lit(String),
    Local(Vec<Part>),
    Safe(Vec<Part>),
    Expr(Vec<Part>),
    Each(Box<EachNode>),
    If(Box<IfNode>),
    /// Inclusion of the partial template with this name.
    Partial(String),
}

#[derive(Debug, PartialEq, Eq)]
pub struct EachNode {
    pub args: Vec<Part>,
    pub body: Vec<Node>,
    /// Rendered when the collection yields nothing.
    pub els: Vec<Node>,
    pub ws: Ws,
}

#[derive(Debug, PartialEq, Eq)]
pub struct IfNode {
    pub cond: Vec<Part>,
    pub then_body: Vec<Node>,
    pub els: Vec<Node>,
    pub ws: Ws,
}

/// The partial templates of a compilation, by name.
pub type Partials = Vec<(String, Vec<Node>)>;

/// Most items an `each` over a literal collection is unrolled for.
pub const UNROLL_LIMIT: usize = 64;

// ---------------------------------------------------------------------------
// Whitespace control

pub open spec fn opens_trimmed(n: Node) -> bool {
    match n {
        Node::Each(e) => e.ws.open_before,
        Node::If(i) => i.ws.open_before,
        _ => false,
    }
}

pub open spec fn closes_trimmed(n: Node) -> bool {
    match n {
        Node::Each(e) => e.ws.close_after,
        Node::If(i) => i.ws.close_after,
        _ => false,
    }
}

/// Whether the literal at `i` loses its leading whitespace: it follows a
/// block closed with a trailing sigil, or opens a body whose opener has one.
pub open spec fn trims_start(nodes: Seq<Node>, i: int, first: bool) -> bool {
    if i == 0 {
        first
    } else {
        closes_trimmed(nodes[i - 1])
    }
}

/// Whether the literal at `i` loses its trailing whitespace: it precedes a
/// block opened with a leading sigil, or ends a body whose closer has one.
pub open spec fn trims_end(nodes: Seq<Node>, i: int, last: bool) -> bool {
    if i + 1 == nodes.len() {
        last
    } else {
        opens_trimmed(nodes[i + 1])
    }
}

pub open spec fn lit_text_spec(t: Seq<char>, start: bool, end: bool) -> Seq<char> {
    let a = if start {
        trim_start_spec(t)
    } else {
        t
    };
    if end {
        trim_end_spec(a)
    } else {
        a
    }
}

/// Text of a literal after whitespace control.
pub fn lit_text(t: &str, start: bool, end: bool) -> (r: String)
    ensures
        r@ == lit_text_spec(t@, start, end),
{
    let a = if start {
        trim_start_ws(t)
    } else {
        t.to_owned()
    };
    if end {
        trim_end_ws(a.as_str())
    } else {
        a
    }
}

fn opens_ws(n: &Node) -> (r: bool)
    ensures
        r == opens_trimmed(*n),
{
    match n {
        Node::Each(e) => e.ws.open_before,
        Node::If(i) => i.ws.open_before,
        _ => false,
    }
}

fn closes_ws(n: &Node) -> (r: bool)
    ensures
        r == closes_trimmed(*n),
{
    match n {
        Node::Each(e) => e.ws.close_after,
        Node::If(i) => i.ws.close_after,
        _ => false,
    }
}

/// A sigil before a block opener trims the literal just before the block:
/// its trailing blanks and at most one newline.
pub proof fn lemma_sigil_trims_preceding(nodes: Seq<Node>, i: int, first: bool, last: bool)
    requires
        0 <= i,
        i + 1 < nodes.len(),
        nodes[i] is Lit,
        opens_trimmed(nodes[i + 1]),
    ensures
        trims_end(nodes, i, last),
        lit_text_spec(nodes[i]->Lit_0@, trims_start(nodes, i, first), trims_end(nodes, i, last))
            == trim_end_spec(lit_text_spec(nodes[i]->Lit_0@, trims_start(nodes, i, first), false)),
{
}

// ---------------------------------------------------------------------------
// Constant collections

pub open spec fn all_digits(s: Seq<char>) -> bool {
    s.len() > 0 && forall|i: int| 0 <= i < s.len() ==> '0' <= #[trigger] s[i] && s[i] <= '9'
}

pub open spec fn digits_value(s: Seq<char>) -> nat
    decreases s.len(),
{
    if s.len() == 0 {
        0
    } else {
        digits_value(s.drop_last()) * 10 + (s.last() as nat - '0' as nat) as nat
    }
}

/// Position of the first `..` in `t`, if any.
pub open spec fn dots_at(t: Seq<char>, i: int) -> int
    decreases t.len() - i,
{
    if i + 1 >= t.len() {
        -1
    } else if t[i] == '.' && t[i + 1] == '.' {
        i
    } else {
        dots_at(t, i + 1)
    }
}

pub open spec fn range_items(a: nat, b: nat) -> Seq<Seq<char>>
    decreases b - a,
{
    if a >= b {
        Seq::empty()
    } else {
        seq![decimal(a)] + range_items(a + 1, b)
    }
}

/// The items of `a..b` with literal bounds, when there is at least one and
/// no more than the unroll limit.
pub open spec fn range_spec(t: Seq<char>) -> Option<Seq<Seq<char>>> {
    let d = dots_at(t, 0);
    if d < 0 {
        None
    } else {
        let a = t.subrange(0, d);
        let b = t.subrange(d + 2, t.len() as int);
        if all_digits(a) && all_digits(b) && digits_value(a) < digits_value(b) && digits_value(b)
            - digits_value(a) <= UNROLL_LIMIT && digits_value(b) < usize::MAX {
            Some(range_items(digits_value(a), digits_value(b)))
        } else {
            None
        }
    }
}

/// The pieces of `s` between commas that lie outside `"` quotes, from
/// position `i` on; `acc` holds the pieces already cut, `start` where the
/// current one began. `None` when a quote is left open.
pub open spec fn split_acc(
    s: Seq<char>,
    i: int,
    start: int,
    quoted: bool,
    acc: Seq<Seq<char>>,
) -> Option<Seq<Seq<char>>>
    decreases s.len() - i,
{
    if i >= s.len() {
        if quoted {
            None
        } else {
            Some(acc.push(s.subrange(start, s.len() as int)))
        }
    } else if s[i] == '"' {
        split_acc(s, i + 1, start, !quoted, acc)
    } else if s[i] == ',' && !quoted {
        split_acc(s, i + 1, i + 1, quoted, acc.push(s.subrange(start, i)))
    } else {
        split_acc(s, i + 1, start, quoted, acc)
    }
}

pub open spec fn trim_all(ps: Seq<Seq<char>>) -> Seq<Seq<char>> {
    ps.map_values(|p: Seq<char>| trim_spec(p))
}

pub open spec fn drop_trailing_empty(ts: Seq<Seq<char>>) -> Seq<Seq<char>> {
    if ts.len() > 1 && ts.last().len() == 0 {
        ts.drop_last()
    } else {
        ts
    }
}

pub open spec fn all_nonempty(es: Seq<Seq<char>>) -> bool {
    forall|k: int| 0 <= k < es.len() ==> (#[trigger] es[k]).len() > 0
}

/// The elements of the inside of an array literal: its comma-separated
/// pieces, trimmed, a final empty one (a trailing comma) dropped; `None`
/// when a quote is left open or an element is empty.
pub open spec fn elements_spec(s: Seq<char>) -> Option<Seq<Seq<char>>> {
    match split_acc(s, 0, 0, false, Seq::empty()) {
        None => None,
        Some(ps) => {
            let es = drop_trailing_empty(trim_all(ps));
            if all_nonempty(es) {
                Some(es)
            } else {
                None
            }
        },
    }
}

fn split_pieces(s: &str) -> (r: Option<Vec<String>>)
    ensures
        r is Some <==> split_acc(s@, 0, 0, false, Seq::empty()) is Some,
        r matches Some(v) ==> strings_view(v@) == split_acc(s@, 0, 0, false, Seq::empty())->0,
{
    let cs = crate::text::chars_of(s);
    let n = cs.len();
    let mut acc: Vec<String> = Vec::new();
    let mut cur = String::new();
    let mut quoted = false;
    let mut start: usize = 0;
    let mut i: usize = 0;
    proof {
        assert(strings_view(acc@) =~= Seq::<Seq<char>>::empty());
        assert(cur@ =~= s@.subrange(0, 0));
    }
    while i < n
        invariant
            n == cs@.len(),
            cs@ == s@,
            start <= i <= n,
            cur@ == s@.subrange(start as int, i as int),
            split_acc(s@, i as int, start as int, quoted, strings_view(acc@)) == split_acc(
                s@,
                0,
                0,
                false,
                Seq::empty(),
            ),
        decreases n - i,
    {
        let c = cs[i];
        if c == ',' && !quoted {
            let ghost before = acc@;
            acc.push(cur);
            proof {
                assert(strings_view(acc@) =~= strings_view(before).push(s@.subrange(start as int, i as int)));
            }
            cur = String::new();
            start = i + 1;
        } else {
            if c == '"' {
                quoted = !quoted;
            }
            push_char(&mut cur, c);
        }
        i = i + 1;
        proof {
            assert(cur@ =~= s@.subrange(start as int, i as int));
        }
    }
    if quoted {
        return None;
    }
    let ghost before = acc@;
    acc.push(cur);
    proof {
        assert(strings_view(acc@) =~= strings_view(before).push(s@.subrange(start as int, n as int)));
    }
    Some(acc)
}

/// The elements of the inside of an array literal.
fn elements(s: &str) -> (r: Option<Vec<String>>)
    ensures
        r is Some <==> elements_spec(s@) is Some,
        r matches Some(v) ==> strings_view(v@) == elements_spec(s@)->0,
{
    let ps = match split_pieces(s) {
        Some(ps) => ps,
        None => {
            return None;
        },
    };
    let ghost raw = strings_view(ps@);
    let mut ts: Vec<String> = Vec::new();
    let mut k: usize = 0;
    while k < ps.len()
        invariant
            k <= ps@.len(),
            raw == strings_view(ps@),
            strings_view(ts@) == trim_all(raw.subrange(0, k as int)),
        decreases ps@.len() - k,
    {
        let t = trim(ps[k].as_str());
        let ghost before = ts@;
        ts.push(t);
        proof {
            assert(raw[k as int] == ps@[k as int]@);
            assert(strings_view(ts@) =~= strings_view(before).push(t@));
            assert(raw.subrange(0, k as int + 1) =~= raw.subrange(0, k as int).push(raw[k as int]));
            assert(trim_all(raw.subrange(0, k as int + 1)) =~= trim_all(raw.subrange(0, k as int)).push(
                trim_spec(raw[k as int]),
            ));
        }
        k = k + 1;
    }
    proof {
        assert(raw.subrange(0, k as int) =~= raw);
    }
    if ts.len() > 1 && ts[ts.len() - 1].unicode_len() == 0 {
        let ghost before = ts@;
        ts.pop();
        proof {
            assert(strings_view(ts@) =~= strings_view(before).drop_last());
        }
    }
    let ghost es = strings_view(ts@);
    proof {
        assert(es =~= drop_trailing_empty(trim_all(raw)));
    }
    let mut j: usize = 0;
    while j < ts.len()
        invariant
            es == strings_view(ts@),
            split_acc(s@, 0, 0, false, Seq::empty()) == Some(raw),
            es == drop_trailing_empty(trim_all(raw)),
            j <= ts@.len(),
            forall|m: int| 0 <= m < j ==> (#[trigger] strings_view(ts@)[m]).len() > 0,
        decreases ts@.len() - j,
    {
        if ts[j].unicode_len() == 0 {
            proof {
                assert(es[j as int].len() == 0);
                assert(!all_nonempty(es));
            }
            return None;
        }
        j = j + 1;
    }
    Some(ts)
}

/// The items of an array literal `[..]` or `&[..]`, when there is at least
/// one and no more than the unroll limit.
pub open spec fn array_spec(t: Seq<char>) -> Option<Seq<Seq<char>>> {
    let lo: int = if t.len() > 0 && t[0] == '&' {
        1
    } else {
        0
    };
    if t.len() >= lo + 2 && t[lo] == '[' && t.last() == ']' {
        match elements_spec(t.subrange(lo + 1, t.len() - 1)) {
            Some(items) => if 0 < items.len() <= UNROLL_LIMIT {
                Some(items)
            } else {
                None
            },
            None => None,
        }
    } else {
        None
    }
}

/// The items of a collection written as a literal, or `None` when the
/// collection is only known at run time.
pub open spec fn const_items_spec(t: Seq<char>) -> Option<Seq<Seq<char>>> {
    match array_spec(t) {
        Some(items) => Some(items),
        None => range_spec(t),
    }
}

fn parse_digits(s: &str) -> (r: Option<usize>)
    ensures
        r is Some <==> all_digits(s@) && digits_value(s@) < usize::MAX,
        r matches Some(v) ==> v == digits_value(s@),
{
    let n = s.unicode_len();
    if n == 0 {
        return None;
    }
    let mut v: usize = 0;
    let mut i: usize = 0;
    while i < n
        invariant
            n == s@.len() > 0,
            i <= n,
            forall|j: int| 0 <= j < i ==> '0' <= #[trigger] s@[j] && s@[j] <= '9',
            v == digits_value(s@.subrange(0, i as int)),
            v < usize::MAX,
        decreases n - i,
    {
        let c = s.get_char(i);
        proof {
            let sub = s@.subrange(0, i as int + 1);
            assert(sub.drop_last() =~= s@.subrange(0, i as int));
        }
        if !('0' <= c && c <= '9') {
            proof {
                assert(!all_digits(s@));
            }
            return None;
        }
        let d = (c as u32 - '0' as u32) as usize;
        if v > (usize::MAX - 1 - d) / 10 {
            proof {
                if all_digits(s@) {
                    lemma_digits_grow(s@, i as int + 1);
                }
                assert(digits_value(s@.subrange(0, i as int + 1)) == v * 10 + d);
                assert(v * 10 + d >= usize::MAX) by (nonlinear_arith)
                    requires
                        v > (usize::MAX - 1 - d) / 10,
                        d <= 9,
                ;
            }
            return None;
        }
        proof {
            assert(v * 10 + d < usize::MAX) by (nonlinear_arith)
                requires
                    v <= (usize::MAX - 1 - d) / 10,
                    d <= 9,
            ;
        }
        v = v * 10 + d;
        i = i + 1;
    }
    proof {
        assert(s@.subrange(0, n as int) =~= s@);
    }
    Some(v)
}

proof fn lemma_digits_grow(s: Seq<char>, k: int)
    requires
        0 <= k <= s.len(),
        all_digits(s),
    ensures
        digits_value(s.subrange(0, k)) <= digits_value(s),
    decreases s.len() - k,
{
    if k < s.len() {
        lemma_digits_grow(s, k + 1);
        let sub = s.subrange(0, k + 1);
        assert(sub.drop_last() =~= s.subrange(0, k));
        assert('0' <= s[k] && s[k] <= '9');
    } else {
        assert(s.subrange(0, k) =~= s);
    }
}

pub open spec fn strings_view(v: Seq<String>) -> Seq<Seq<char>> {
    v.map_values(|s: String| s@)
}

proof fn lemma_range_items_push(a: nat, k: nat)
    requires
        a <= k,
    ensures
        range_items(a, k + 1) == range_items(a, k).push(decimal(k)),
    decreases k - a,
{
    if a < k {
        lemma_range_items_push(a + 1, k);
        assert(range_items(a, k + 1) =~= range_items(a, k).push(decimal(k)));
    } else {
        assert(range_items(a + 1, k + 1) =~= Seq::<Seq<char>>::empty());
        assert(range_items(a, k + 1) =~= seq![decimal(k)]);
        assert(range_items(a, k) =~= Seq::<Seq<char>>::empty());
    }
}

fn range_items_of(t: &str) -> (r: Option<Vec<String>>)
    ensures
        r is Some <==> range_spec(t@) is Some,
        r matches Some(v) ==> strings_view(v@) == range_spec(t@)->0,
{
    let n = t.unicode_len();
    let mut d: usize = 0;
    while d < n && d + 1 < n && !(t.get_char(d) == '.' && t.get_char(d + 1) == '.')
        invariant
            n == t@.len(),
            d <= n,
            dots_at(t@, d as int) == dots_at(t@, 0),
        decreases n - d,
    {
        d = d + 1;
    }
    if d >= n || d + 1 >= n {
        return None;
    }
    let a = match parse_digits(t.substring_char(0, d)) {
        Some(a) => a,
        None => {
            return None;
        },
    };
    let b = match parse_digits(t.substring_char(d + 2, n)) {
        Some(b) => b,
        None => {
            return None;
        },
    };
    if !(a < b && b - a <= UNROLL_LIMIT) {
        return None;
    }
    let mut items: Vec<String> = Vec::new();
    let mut k: usize = a;
    while k < b
        invariant
            a <= k <= b,
            strings_view(items@) == range_items(a as nat, k as nat),
        decreases b - k,
    {
        let mut s = String::new();
        push_decimal(&mut s, k);
        items.push(s);
        proof {
            lemma_range_items_push(a as nat, k as nat);
            assert(strings_view(items@) =~= range_items(a as nat, k as nat).push(decimal(k as nat)));
        }
        k = k + 1;
    }
    Some(items)
}

fn array_items_of(t: &str) -> (r: Option<Vec<String>>)
    ensures
        r is Some <==> array_spec(t@) is Some,
        r matches Some(v) ==> strings_view(v@) == array_spec(t@)->0,
{
    let n = t.unicode_len();
    let lo: usize = if n > 0 && t.get_char(0) == '&' {
        1
    } else {
        0
    };
    if !(n >= lo + 2 && t.get_char(lo) == '[' && t.get_char(n - 1) == ']') {
        return None;
    }
    match elements(t.substring_char(lo + 1, n - 1)) {
        Some(items) => {
            if 0 < items.len() && items.len() <= UNROLL_LIMIT {
                Some(items)
            } else {
                None
            }
        },
        None => None,
    }
}

/// The items of `t` when it is a literal collection: an array literal, or a
/// range with literal bounds.
pub fn const_items(t: &str) -> (r: Option<Vec<String>>)
    ensures
        r is Some <==> const_items_spec(t@) is Some,
        r matches Some(v) ==> strings_view(v@) == const_items_spec(t@)->0,
{
    match array_items_of(t) {
        Some(items) => Some(items),
        None => range_items_of(t),
    }
}

// ---------------------------------------------------------------------------
// Lowering

/// The first error met resolving `parts` at nesting depth `depth`.
pub open spec fn parts_err(depth: nat, parts: Seq<Part>) -> Option<ErrorKind>
    decreases parts.len(),
{
    if parts.len() == 0 {
        None
    } else {
        match parts_err(depth, parts.drop_last()) {
            Some(e) => Some(e),
            None => match parts.last() {
                Part::Text(_) => None,
                Part::Ident(up, _) => if up > depth {
                    Some(ErrorKind::SuperDepth)
                } else {
                    None
                },
            },
        }
    }
}

proof fn lemma_parts_err(scopes: Seq<LevelV>, parts: Seq<Part>)
    ensures
        parts_spec(scopes, parts) is Ok <==> parts_err(scopes.len(), parts) is None,
        parts_spec(scopes, parts) is Err ==> parts_spec(scopes, parts) == Err::<
            Seq<char>,
            ErrorKind,
        >(ErrorKind::SuperDepth) && parts_err(scopes.len(), parts) == Some(ErrorKind::SuperDepth),
    decreases parts.len(),
{
    if parts.len() > 0 {
        lemma_parts_err(scopes, parts.drop_last());
    }
}

/// Index of the first partial named `name` at or after `i`, or -1.
pub open spec fn find_partial(table: Seq<(String, Vec<Node>)>, name: Seq<char>, i: int) -> int
    decreases table.len() - i,
{
    if i >= table.len() || i < 0 {
        -1
    } else if table[i].0@ == name {
        i
    } else {
        find_partial(table, name, i + 1)
    }
}

/// The first error that lowering `nodes` meets, at nesting depth `depth`,
/// while the partials `stack` are being expanded; `None` when there is none.
pub open spec fn check_nodes(
    table: Seq<(String, Vec<Node>)>,
    stack: Seq<usize>,
    depth: nat,
    nodes: Seq<Node>,
) -> Option<ErrorKind>
    decreases table.len() - stack.len(), nodes,
{
    if nodes.len() == 0 {
        None
    } else {
        match check_nodes(table, stack, depth, nodes.drop_last()) {
            Some(e) => Some(e),
            None => check_node(table, stack, depth, nodes.last()),
        }
    }
}

/// The first error that lowering `n` meets.
pub open spec fn check_node(
    table: Seq<(String, Vec<Node>)>,
    stack: Seq<usize>,
    depth: nat,
    n: Node,
) -> Option<ErrorKind>
    decreases table.len() - stack.len(), n,
{
    match n {
        Node::Lit(_) => None,
        Node::Local(p) => parts_err(depth, p@),
        Node::Safe(p) => parts_err(depth, p@),
        Node::Expr(p) => parts_err(depth, p@),
        Node::Each(e) => match parts_err(depth, e.args@) {
            Some(x) => Some(x),
            None => match check_nodes(table, stack, depth + 1, e.body@) {
                Some(x) => Some(x),
                None => check_nodes(table, stack, depth, e.els@),
            },
        },
        Node::If(i) => match parts_err(depth, i.cond@) {
            Some(x) => Some(x),
            None => match check_nodes(table, stack, depth, i.then_body@) {
                Some(x) => Some(x),
                None => check_nodes(table, stack, depth, i.els@),
            },
        },
        Node::Partial(name) => {
            let k = find_partial(table, name@, 0);
            if k < 0 {
                Some(ErrorKind::Path)
            } else if stack.contains(k as usize) || stack.len() >= table.len() {
                Some(ErrorKind::Recursion)
            } else {
                check_nodes(table, stack.push(k as usize), depth, table[k].1@)
            }
        },
    }
}

fn find_partial_index(table: &Partials, name: &str) -> (r: Option<usize>)
    ensures
        r is None <==> find_partial(table@, name@, 0) < 0,
        r matches Some(k) ==> k == find_partial(table@, name@, 0) && k < table@.len(),
{
    let mut i: usize = 0;
    while i < table.len()
        invariant
            i <= table@.len(),
            find_partial(table@, name@, i as int) == find_partial(table@, name@, 0),
        decreases table@.len() - i,
    {
        if str_eq(table[i].0.as_str(), name) {
            return Some(i);
        }
        i = i + 1;
    }
    None
}

fn on_stack(stack: &Vec<usize>, k: usize) -> (r: bool)
    ensures
        r == stack@.contains(k),
{
    let mut i: usize = 0;
    while i < stack.len()
        invariant
            i <= stack@.len(),
            forall|j: int| 0 <= j < i ==> stack@[j] != k,
        decreases stack@.len() - i,
    {
        if stack[i] == k {
            return true;
        }
        i = i + 1;
    }
    false
}

proof fn lemma_check_err_stays(
    table: Seq<(String, Vec<Node>)>,
    stack: Seq<usize>,
    depth: nat,
    nodes: Seq<Node>,
    k: int,
)
    requires
        0 <= k <= nodes.len(),
        check_nodes(table, stack, depth, nodes.subrange(0, k)) is Some,
    ensures
        check_nodes(table, stack, depth, nodes) == check_nodes(
            table,
            stack,
            depth,
            nodes.subrange(0, k),
        ),
    decreases nodes.len() - k,
{
    if k < nodes.len() {
        let next = nodes.subrange(0, k + 1);
        assert(next.drop_last() =~= nodes.subrange(0, k));
        lemma_check_err_stays(table, stack, depth, nodes, k + 1);
    } else {
        assert(nodes.subrange(0, k) =~= nodes);
    }
}

proof fn lemma_range_items_len(a: nat, b: nat)
    ensures
        range_items(a, b).len() == if a < b {
            b - a
        } else {
            0
        },
    decreases b - a,
{
    if a < b {
        lemma_range_items_len(a + 1, b);
    }
}

proof fn lemma_const_items_nonempty(t: Seq<char>)
    requires
        const_items_spec(t) is Some,
    ensures
        const_items_spec(t)->0.len() > 0,
{
    if array_spec(t) is None {
        let d = dots_at(t, 0);
        let a = t.subrange(0, d);
        let b = t.subrange(d + 2, t.len() as int);
        lemma_range_items_len(digits_value(a), digits_value(b));
    }
}

/// Whether the literal at `i` of `nodes` is trimmed at its start and end.
fn trim_flags(nodes: &Vec<Node>, i: usize, first: bool, last: bool) -> (r: (bool, bool))
    requires
        i < nodes@.len(),
    ensures
        r.0 == trims_start(nodes@, i as int, first),
        r.1 == trims_end(nodes@, i as int, last),
{
    let start = if i == 0 {
        first
    } else {
        closes_ws(&nodes[i - 1])
    };
    let end = if i == nodes.len() - 1 {
        last
    } else {
        opens_ws(&nodes[i + 1])
    };
    (start, end)
}

/// The pattern a runtime loop at level `l` binds: its 0-based counter and
/// its item.
pub open spec fn loop_pattern(l: nat) -> Seq<char> {
    "("@ + index_var(l) + ", "@ + item_var(l) + ")"@
}

pub open spec fn empty_flag(l: nat) -> Seq<char> {
    "__empty_"@ + decimal(l)
}

/// A runtime loop over the collection `a` at level `l` with body `b`; when
/// the block has an `else` body, lowered to `el`, a flag records whether the loop ran, and
/// `el` is rendered when it did not.
pub open spec fn runtime_each(a: Seq<char>, l: nat, b: Seq<HirV>, has_els: bool, el: Seq<HirV>) -> Seq<HirV> {
    let each_args = "("@ + a + ").into_iter().enumerate()"@;
    if !has_els {
        seq![HirV::Each(each_args, loop_pattern(l), b)]
    } else {
        seq![
            HirV::Local("let mut "@ + empty_flag(l) + " = true;"@),
            HirV::Each(each_args, loop_pattern(l), seq![HirV::Local(empty_flag(l) + " = false;"@)] + b),
            HirV::IfElse(empty_flag(l), el, Seq::empty(), None),
        ]
    }
}

/// `after` is `before` with the lowered nodes of `res` appended.
pub open spec fn appended(before: Seq<HIR>, after: Seq<HIR>, res: Result<Seq<HirV>, ErrorKind>) -> bool {
    res matches Ok(v) && hirs_view(after) == hirs_view(before) + v
}

proof fn lemma_levels_view_push(s: Seq<Level>, l: Level)
    ensures
        levels_view(s.push(l)) == levels_view(s).push(level_view(l)),
{
    assert(levels_view(s.push(l)) =~= levels_view(s).push(level_view(l)));
}

/// What lowering the first `k` of `nodes` yields, at the enclosing blocks
/// `scopes`, while the partials `stack` are being expanded; `first` and
/// `last` say whether the enclosing block trims the first and last literal.
pub open spec fn lower_prefix(
    table: Seq<(String, Vec<Node>)>,
    stack: Seq<usize>,
    scopes: Seq<LevelV>,
    nodes: Seq<Node>,
    k: int,
    first: bool,
    last: bool,
) -> Result<Seq<HirV>, ErrorKind>
    decreases table.len() - stack.len(), nodes, k,
{
    if k <= 0 || k > nodes.len() {
        Ok(Seq::empty())
    } else {
        match lower_prefix(table, stack, scopes, nodes, k - 1, first, last) {
            Err(e) => Err(e),
            Ok(a) => match node_spec(
                table,
                stack,
                scopes,
                nodes[k - 1],
                trims_start(nodes, k - 1, first),
                trims_end(nodes, k - 1, last),
            ) {
                Err(e) => Err(e),
                Ok(b) => Ok(a + b),
            },
        }
    }
}

/// What lowering `nodes` yields.
pub open spec fn lower_spec(
    table: Seq<(String, Vec<Node>)>,
    stack: Seq<usize>,
    scopes: Seq<LevelV>,
    nodes: Seq<Node>,
    first: bool,
    last: bool,
) -> Result<Seq<HirV>, ErrorKind> {
    lower_prefix(table, stack, scopes, nodes, nodes.len() as int, first, last)
}

/// What lowering one node yields: a literal is trimmed as asked, an
/// expression has its bindings resolved, an `each` over a literal collection
/// is unrolled and any other becomes a numbered loop, a conditional keeps its
/// branches, and a partial is replaced by its lowered nodes.
pub open spec fn node_spec(
    table: Seq<(String, Vec<Node>)>,
    stack: Seq<usize>,
    scopes: Seq<LevelV>,
    n: Node,
    start: bool,
    end: bool,
) -> Result<Seq<HirV>, ErrorKind>
    decreases table.len() - stack.len(), n, 0int,
{
    match n {
        Node::Lit(t) => Ok(seq![HirV::Lit(lit_text_spec(t@, start, end))]),
        Node::Local(p) => match parts_spec(scopes, p@) {
            Ok(x) => Ok(seq![HirV::Local(x)]),
            Err(e) => Err(e),
        },
        Node::Safe(p) => match parts_spec(scopes, p@) {
            Ok(x) => Ok(seq![HirV::Safe(x)]),
            Err(e) => Err(e),
        },
        Node::Expr(p) => match parts_spec(scopes, p@) {
            Ok(x) => Ok(seq![HirV::Expr(x)]),
            Err(e) => Err(e),
        },
        Node::Each(e) => match parts_spec(scopes, e.args@) {
            Err(x) => Err(x),
            Ok(a) => match lower_prefix(
                table,
                stack,
                scopes,
                e.els@,
                e.els@.len() as int,
                false,
                e.ws.close_before,
            ) {
                Err(x) => Err(x),
                Ok(el) => match const_items_spec(a) {
                    Some(items) => unroll_spec(
                        table,
                        stack,
                        scopes,
                        e.body@,
                        e.ws,
                        items,
                        items.len() as int,
                    ),
                    None => match lower_prefix(
                        table,
                        stack,
                        scopes.push(LevelV::Runtime),
                        e.body@,
                        e.body@.len() as int,
                        e.ws.open_after,
                        e.ws.close_before,
                    ) {
                        Err(x) => Err(x),
                        Ok(b) => Ok(runtime_each(a, scopes.len() + 1, b, e.els@.len() > 0, el)),
                    },
                },
            },
        },
        Node::If(i) => match parts_spec(scopes, i.cond@) {
            Err(x) => Err(x),
            Ok(c) => match lower_prefix(
                table,
                stack,
                scopes,
                i.then_body@,
                i.then_body@.len() as int,
                i.ws.open_after,
                i.els@.len() == 0 && i.ws.close_before,
            ) {
                Err(x) => Err(x),
                Ok(t) => match lower_prefix(
                    table,
                    stack,
                    scopes,
                    i.els@,
                    i.els@.len() as int,
                    false,
                    i.ws.close_before,
                ) {
                    Err(x) => Err(x),
                    Ok(el) => Ok(
                        seq![
                            HirV::IfElse(
                                c,
                                t,
                                Seq::empty(),
                                if i.els@.len() > 0 {
                                    Some(el)
                                } else {
                                    None
                                },
                            ),
                        ],
                    ),
                },
            },
        },
        Node::Partial(name) => {
            let k = find_partial(table, name@, 0);
            if k < 0 {
                Err(ErrorKind::Path)
            } else if stack.contains(k as usize) || stack.len() >= table.len() {
                Err(ErrorKind::Recursion)
            } else {
                lower_prefix(
                    table,
                    stack.push(k as usize),
                    scopes,
                    table[k].1@,
                    table[k].1@.len() as int,
                    false,
                    false,
                )
            }
        },
    }
}

/// The body lowered once for each of the first `k` items, the item and its
/// 1-based position bound at a new level.
pub open spec fn unroll_spec(
    table: Seq<(String, Vec<Node>)>,
    stack: Seq<usize>,
    scopes: Seq<LevelV>,
    body: Seq<Node>,
    ws: Ws,
    items: Seq<Seq<char>>,
    k: int,
) -> Result<Seq<HirV>, ErrorKind>
    decreases table.len() - stack.len(), body, body.len() + 1 + k,
{
    if k <= 0 || k > items.len() {
        Ok(Seq::empty())
    } else {
        match unroll_spec(table, stack, scopes, body, ws, items, k - 1) {
            Err(e) => Err(e),
            Ok(a) => match lower_prefix(
                table,
                stack,
                scopes.push(LevelV::Const(items[k - 1], k as nat)),
                body,
                body.len() as int,
                ws.open_after,
                ws.close_before,
            ) {
                Err(e) => Err(e),
                Ok(b) => Ok(a + b),
            },
        }
    }
}

/// Lowers `nodes` into `out`. `first` and `last` say whether the enclosing
/// block trims the first and the last literal of `nodes`.
pub fn lower_nodes(
    table: &Partials,
    stack: &mut Vec<usize>,
    scopes: &mut Vec<Level>,
    nodes: &Vec<Node>,
    first: bool,
    last: bool,
    out: &mut Vec<HIR>,
) -> (r: Result<(), ErrorKind>)
    ensures
        final(stack)@ == old(stack)@,
        final(scopes)@ == old(scopes)@,
        r is Ok <==> check_nodes(table@, old(stack)@, old(scopes)@.len(), nodes@) is None,
        r matches Err(e) ==> check_nodes(table@, old(stack)@, old(scopes)@.len(), nodes@) == Some(
            e,
        ),
        r is Ok ==> appended(
            old(out)@,
            final(out)@,
            lower_spec(table@, old(stack)@, levels_view(old(scopes)@), nodes@, first, last),
        ),
    decreases table@.len() - old(stack)@.len(), nodes@,
{
    let n = nodes.len();
    let mut i: usize = 0;
    let ghost out0 = out@;
    proof {
        assert(hirs_view(out0) + Seq::<HirV>::empty() =~= hirs_view(out0));
    }
    while i < n
        invariant
            n == nodes@.len(),
            i <= n,
            stack@ == old(stack)@,
            scopes@ == old(scopes)@,
            out0 == old(out)@,
            check_nodes(table@, stack@, scopes@.len(), nodes@.subrange(0, i as int)) is None,
            appended(
                out0,
                out@,
                lower_prefix(table@, stack@, levels_view(scopes@), nodes@, i as int, first, last),
            ),
        decreases n - i,
    {
        let ghost mid = out@;
        let (start, end) = trim_flags(nodes, i, first, last);
        let ghost sub = nodes@.subrange(0, i as int + 1);
        proof {
            assert(sub.drop_last() =~= nodes@.subrange(0, i as int));
            assert(decreases_to!(nodes@ => nodes@[i as int]));
        }
        match lower_node(table, stack, scopes, &nodes[i], start, end, out) {
            Ok(()) => {
                proof {
                    let a = lower_prefix(table@, stack@, levels_view(scopes@), nodes@, i as int, first, last)->Ok_0;
                    let b = node_spec(table@, stack@, levels_view(scopes@), nodes@[i as int], start, end)->Ok_0;
                    assert(hirs_view(out@) =~= hirs_view(out0) + (a + b));
                }
            },
            Err(e) => {
                proof {
                    lemma_check_err_stays(table@, stack@, scopes@.len(), nodes@, i as int + 1);
                }
                return Err(e);
            },
        }
        i = i + 1;
    }
    proof {
        assert(nodes@.subrange(0, i as int) =~= nodes@);
    }
    Ok(())
}

/// Lowers one node; a literal is trimmed at its `start` and `end` as asked.
pub fn lower_node(
    table: &Partials,
    stack: &mut Vec<usize>,
    scopes: &mut Vec<Level>,
    n: &Node,
    start: bool,
    end: bool,
    out: &mut Vec<HIR>,
) -> (r: Result<(), ErrorKind>)
    ensures
        final(stack)@ == old(stack)@,
        final(scopes)@ == old(scopes)@,
        r is Ok <==> check_node(table@, old(stack)@, old(scopes)@.len(), *n) is None,
        r matches Err(e) ==> check_node(table@, old(stack)@, old(scopes)@.len(), *n) == Some(e),
        r is Ok ==> appended(
            old(out)@,
            final(out)@,
            node_spec(table@, old(stack)@, levels_view(old(scopes)@), *n, start, end),
        ),
        n matches Node::Lit(t) ==> final(out)@.len() == old(out)@.len() + 1,
        n matches Node::Lit(t) ==> final(out)@.last() matches HIR::Lit(x) && x@ == lit_text_spec(
            t@,
            start,
            end,
        ),
    decreases table@.len() - old(stack)@.len(), n,
{
    match n {
        Node::Lit(t) => {
            let text = lit_text(t.as_str(), start, end);
            let ghost before = out@;
            out.push(HIR::Lit(text));
            proof {
                lemma_hirs_view_push(before, HIR::Lit(text));
                assert(hirs_view(out@) =~= hirs_view(before) + seq![HirV::Lit(text@)]);
            }
            Ok(())
        },
        Node::Local(p) => lower_leaf(scopes, p, 0, out),
        Node::Safe(p) => lower_leaf(scopes, p, 1, out),
        Node::Expr(p) => lower_leaf(scopes, p, 2, out),
        Node::Each(e) => lower_each(table, stack, scopes, e, out),
        Node::If(i) => lower_if(table, stack, scopes, i, out),
        Node::Partial(name) => {
            let k = match find_partial_index(table, name.as_str()) {
                Some(k) => k,
                None => {
                    return Err(ErrorKind::Path);
                },
            };
            if on_stack(stack, k) || stack.len() >= table.len() {
                return Err(ErrorKind::Recursion);
            }
            stack.push(k);
            proof {
                assert(decreases_to!(table@ => table@[k as int]));
            }
            let r = lower_nodes(table, stack, scopes, &table[k].1, false, false, out);
            stack.pop();
            proof {
                assert(stack@ =~= old(stack)@);
            }
            r
        },
    }
}

fn lower_leaf(scopes: &Vec<Level>, p: &Vec<Part>, kind: u8, out: &mut Vec<HIR>) -> (r: Result<
    (),
    ErrorKind,
>)
    ensures
        r is Ok <==> parts_err(scopes@.len(), p@) is None,
        r matches Err(e) ==> parts_err(scopes@.len(), p@) == Some(e),
        r is Ok ==> parts_spec(levels_view(scopes@), p@) is Ok && hirs_view(final(out)@) == hirs_view(
            old(out)@,
        ) + seq![
            if kind == 0 {
                HirV::Local(parts_spec(levels_view(scopes@), p@)->Ok_0)
            } else if kind == 1 {
                HirV::Safe(parts_spec(levels_view(scopes@), p@)->Ok_0)
            } else {
                HirV::Expr(parts_spec(levels_view(scopes@), p@)->Ok_0)
            },
        ],
{
    proof {
        lemma_parts_err(levels_view(scopes@), p@);
    }
    let ghost before = out@;
    match resolve_parts(scopes, p) {
        Ok(x) => {
            if kind == 0 {
                out.push(HIR::Local(x));
            } else if kind == 1 {
                out.push(HIR::Safe(x));
            } else {
                out.push(HIR::Expr(x));
            }
            proof {
                lemma_hirs_view_push(before, out@.last());
                assert(out@ =~= before.push(out@.last()));
                assert(hirs_view(out@) =~= hirs_view(before) + seq![hir_view(out@.last())]);
            }
            Ok(())
        },
        Err(e) => Err(e),
    }
}

fn lower_each(
    table: &Partials,
    stack: &mut Vec<usize>,
    scopes: &mut Vec<Level>,
    e: &EachNode,
    out: &mut Vec<HIR>,
) -> (r: Result<(), ErrorKind>)
    ensures
        final(stack)@ == old(stack)@,
        final(scopes)@ == old(scopes)@,
        r is Ok <==> check_node(table@, old(stack)@, old(scopes)@.len(), Node::Each(Box::new(*e)))
            is None,
        r matches Err(x) ==> check_node(
            table@,
            old(stack)@,
            old(scopes)@.len(),
            Node::Each(Box::new(*e)),
        ) == Some(x),
        r is Ok ==> appended(
            old(out)@,
            final(out)@,
            node_spec(table@, old(stack)@, levels_view(old(scopes)@), Node::Each(Box::new(*e)), false, false),
        ),
    decreases table@.len() - old(stack)@.len(), e,
{
    proof {
        lemma_parts_err(levels_view(scopes@), e.args@);
    }
    let args = match resolve_parts(scopes, &e.args) {
        Ok(a) => a,
        Err(x) => {
            return Err(x);
        },
    };
    proof {
        assert(decreases_to!(e.body => e.body@));
    }
    match const_items(args.as_str()) {
        Some(items) => {
            proof {
                lemma_const_items_nonempty(args@);
            }
            let mut k: usize = 0;
            let ghost out0 = out@;
            let ghost iv = strings_view(items@);
            proof {
                assert(hirs_view(out0) + Seq::<HirV>::empty() =~= hirs_view(out0));
            }
            while k < items.len()
                invariant
                    k <= items@.len(),
                    stack@ == old(stack)@,
                    scopes@ == old(scopes)@,
                    out0 == old(out)@,
                    iv == strings_view(items@),
                    iv == const_items_spec(args@)->0,
                    appended(
                        out0,
                        out@,
                        unroll_spec(table@, stack@, levels_view(scopes@), e.body@, e.ws, iv, k as int),
                    ),
                    k > 0 ==> check_nodes(table@, stack@, scopes@.len() + 1, e.body@) is None,
                    parts_err(scopes@.len(), e.args@) is None,
                decreases items@.len() - k,
            {
                let ghost mid = out@;
                let item = items[k].clone();
                let pos: usize = k + 1;
                proof {
                    lemma_levels_view_push(scopes@, Level::Const(item, pos));
                    assert(item@ == iv[k as int]);
                }
                scopes.push(Level::Const(item, pos));
                let r = lower_nodes(
                    table,
                    stack,
                    scopes,
                    &e.body,
                    e.ws.open_after,
                    e.ws.close_before,
                    out,
                );
                scopes.pop();
                proof {
                    assert(scopes@ =~= old(scopes)@);
                }
                match r {
                    Ok(()) => {
                        proof {
                            let a = unroll_spec(table@, stack@, levels_view(scopes@), e.body@, e.ws, iv, k as int)->Ok_0;
                            let b = lower_spec(
                                table@,
                                stack@,
                                levels_view(scopes@).push(LevelV::Const(iv[k as int], (k + 1) as nat)),
                                e.body@,
                                e.ws.open_after,
                                e.ws.close_before,
                            )->Ok_0;
                            assert(hirs_view(out@) =~= hirs_view(out0) + (a + b));
                        }
                    },
                    Err(x) => {
                        return Err(x);
                    },
                }
                k = k + 1;
            }
            let mut scratch: Vec<HIR> = Vec::new();
            match lower_nodes(table, stack, scopes, &e.els, false, e.ws.close_before, &mut scratch) {
                Ok(()) => {},
                Err(x) => {
                    return Err(x);
                },
            }
            Ok(())
        },
        None => {
            proof {
                lemma_levels_view_push(scopes@, Level::Runtime);
            }
            scopes.push(Level::Runtime);
            let level = scopes.len();
            let has_els = e.els.len() > 0;
            let mut flag = String::from_str("__empty_");
            push_decimal(&mut flag, level);
            let mut body: Vec<HIR> = Vec::new();
            if has_els {
                let mut clear = flag.clone();
                clear.append(" = false;");
                body.push(HIR::Local(clear));
            }
            let ghost body0 = body@;
            let r = lower_nodes(
                table,
                stack,
                scopes,
                &e.body,
                e.ws.open_after,
                e.ws.close_before,
                &mut body,
            );
            scopes.pop();
            proof {
                assert(scopes@ =~= old(scopes)@);
            }
            match r {
                Ok(()) => {},
                Err(x) => {
                    return Err(x);
                },
            }
            let mut els: Vec<HIR> = Vec::new();
            match lower_nodes(table, stack, scopes, &e.els, false, e.ws.close_before, &mut els) {
                Ok(()) => {},
                Err(x) => {
                    return Err(x);
                },
            }
            let mut expr = String::from_str("(");
            expr.append("__index_");
            push_decimal(&mut expr, level);
            expr.append(", ");
            expr.append("__item_");
            push_decimal(&mut expr, level);
            expr.append(")");
            let mut each_args = String::from_str("(");
            each_args.append(args.as_str());
            each_args.append(").into_iter().enumerate()");
            proof {
                assert(expr@ =~= loop_pattern(level as nat));
                assert(flag@ =~= empty_flag(level as nat));
            }
            let ghost before = out@;
            let ghost bv = hirs_view(body@);
            let ghost ev = hirs_view(els@);
            proof {
                assert(hirs_view(Seq::<HIR>::empty()) =~= Seq::<HirV>::empty());
                assert(Seq::<HirV>::empty() + ev =~= ev);
                if !has_els {
                    assert(body0 =~= Seq::<HIR>::empty());
                    assert(Seq::<HirV>::empty() + bv =~= bv);
                } else {
                    lemma_hirs_view_push(Seq::<HIR>::empty(), body0[0]);
                    assert(body0 =~= Seq::<HIR>::empty().push(body0[0]));
                }
            }
            if has_els {
                let mut decl = String::from_str("let mut ");
                decl.append(flag.as_str());
                decl.append(" = true;");
                let h0 = HIR::Local(decl);
                out.push(h0);
                let h1 = HIR::Each(Box::new(Each { args: each_args, expr, body }));
                out.push(h1);
                let none: Vec<(String, Vec<HIR>)> = Vec::new();
                proof {
                    assert(none@ =~= Seq::<(String, Vec<HIR>)>::empty());
                }
                let h2 = HIR::IfElse(
                    Box::new(IfElse { ifs: (flag, els), if_else: none, els: None }),
                );
                out.push(h2);
                proof {
                    lemma_hirs_view_push(before, h0);
                    lemma_hirs_view_push(before.push(h0), h1);
                    lemma_hirs_view_push(before.push(h0).push(h1), h2);
                    assert(out@ =~= before.push(h0).push(h1).push(h2));
                    assert(hirs_view(out@) =~= hirs_view(before) + seq![hir_view(h0), hir_view(h1), hir_view(h2)]);
                }
            } else {
                let h = HIR::Each(Box::new(Each { args: each_args, expr, body }));
                out.push(h);
                proof {
                    lemma_hirs_view_push(before, h);
                    assert(hir_view(h) == HirV::Each(each_args@, loop_pattern(level as nat), bv));
                    assert(hirs_view(out@) =~= hirs_view(before) + seq![hir_view(h)]);
                }
            }
            Ok(())
        },
    }
}

fn lower_if(
    table: &Partials,
    stack: &mut Vec<usize>,
    scopes: &mut Vec<Level>,
    i: &IfNode,
    out: &mut Vec<HIR>,
) -> (r: Result<(), ErrorKind>)
    ensures
        final(stack)@ == old(stack)@,
        final(scopes)@ == old(scopes)@,
        r is Ok <==> check_node(table@, old(stack)@, old(scopes)@.len(), Node::If(Box::new(*i)))
            is None,
        r matches Err(x) ==> check_node(
            table@,
            old(stack)@,
            old(scopes)@.len(),
            Node::If(Box::new(*i)),
        ) == Some(x),
        r is Ok ==> appended(
            old(out)@,
            final(out)@,
            node_spec(table@, old(stack)@, levels_view(old(scopes)@), Node::If(Box::new(*i)), false, false),
        ),
    decreases table@.len() - old(stack)@.len(), i,
{
    proof {
        lemma_parts_err(levels_view(scopes@), i.cond@);
    }
    let cond = match resolve_parts(scopes, &i.cond) {
        Ok(c) => c,
        Err(x) => {
            return Err(x);
        },
    };
    proof {
        assert(decreases_to!(i.then_body => i.then_body@));
        assert(decreases_to!(i.els => i.els@));
    }
    let has_els = i.els.len() > 0;
    let mut then_body: Vec<HIR> = Vec::new();
    match lower_nodes(
        table,
        stack,
        scopes,
        &i.then_body,
        i.ws.open_after,
        !has_els && i.ws.close_before,
        &mut then_body,
    ) {
        Ok(()) => {},
        Err(x) => {
            return Err(x);
        },
    }
    let mut els: Vec<HIR> = Vec::new();
    match lower_nodes(table, stack, scopes, &i.els, false, i.ws.close_before, &mut els) {
        Ok(()) => {},
        Err(x) => {
            return Err(x);
        },
    }
    let els = if has_els {
        Some(els)
    } else {
        None
    };
    let ghost before = out@;
    let branches: Vec<(String, Vec<HIR>)> = Vec::new();
    proof {
        assert(branches@ =~= Seq::<(String, Vec<HIR>)>::empty());
        assert(hirs_view(Seq::<HIR>::empty()) + hirs_view(then_body@) =~= hirs_view(then_body@));
        if has_els {
            assert(hirs_view(Seq::<HIR>::empty()) + hirs_view(els->0@) =~= hirs_view(els->0@));
        }
    }
    let h = HIR::IfElse(Box::new(IfElse { ifs: (cond, then_body), if_else: branches, els }));
    out.push(h);
    proof {
        lemma_hirs_view_push(before, h);
        assert(hirs_view(out@) =~= hirs_view(before) + seq![hir_view(h)]);
    }
    Ok(())
}

/// Lowers a template: expands its partials from `table`, resolves every
/// binding, applies whitespace control and unrolls `each` over literal
/// collections. Fails with the first error met, in source order.
pub fn lower(table: &Partials, nodes: &Vec<Node>) -> (r: Result<Vec<HIR>, ErrorKind>)
    ensures
        r is Ok <==> check_nodes(table@, Seq::empty(), 0, nodes@) is None,
        r matches Err(e) ==> check_nodes(table@, Seq::empty(), 0, nodes@) == Some(e),
        r matches Ok(h) ==> lower_spec(table@, Seq::empty(), Seq::empty(), nodes@, false, false)
            == Ok::<Seq<HirV>, ErrorKind>(hirs_view(h@)),
{
    let mut stack: Vec<usize> = Vec::new();
    let mut scopes: Vec<Level> = Vec::new();
    let mut out: Vec<HIR> = Vec::new();
    proof {
        assert(stack@ =~= Seq::<usize>::empty());
        assert(levels_view(scopes@) =~= Seq::<LevelV>::empty());
        assert(hirs_view(out@) =~= Seq::<HirV>::empty());
    }
    match lower_nodes(table, &mut stack, &mut scopes, nodes, false, false, &mut out) {
        Ok(()) => Ok(out),
        Err(e) => Err(e),
    }
}

// ---------------------------------------------------------------------------
// Partial cycles

/// Whether `nodes` include the partial named `name`, inside blocks or not.
pub open spec fn refs_nodes(nodes: Seq<Node>, name: Seq<char>) -> bool
    decreases nodes,
{
    nodes.len() > 0 && (refs_nodes(nodes.drop_last(), name) || refs_node(nodes.last(), name))
}

pub open spec fn refs_node(n: Node, name: Seq<char>) -> bool
    decreases n,
{
    match n {
        Node::Partial(p) => p@ == name,
        Node::Each(e) => refs_nodes(e.body@, name),
        Node::If(i) => refs_nodes(i.then_body@, name) || refs_nodes(i.els@, name),
        _ => false,
    }
}

/// Entry `a` of the partial table includes entry `b`, which is the entry
/// its name resolves to.
pub open spec fn includes(table: Seq<(String, Vec<Node>)>, a: int, b: int) -> bool {
    &&& 0 <= a < table.len()
    &&& 0 <= b < table.len()
    &&& find_partial(table, table[b].0@, 0) == b
    &&& refs_nodes(table[a].1@, table[b].0@)
}

pub open spec fn link(table: Seq<(String, Vec<Node>)>, chain: Seq<int>, j: int) -> bool {
    includes(table, chain[j], chain[j + 1])
}

/// `chain` is a cycle of inclusions among the partials of `table`.
pub open spec fn inclusion_cycle(table: Seq<(String, Vec<Node>)>, chain: Seq<int>) -> bool {
    &&& chain.len() >= 2
    &&& chain.last() == chain[0]
    &&& forall|j: int| 0 <= j < chain.len() - 1 ==> #[trigger] link(table, chain, j)
}

pub open spec fn partial_fails(
    table: Seq<(String, Vec<Node>)>,
    stack: Seq<usize>,
    name: Seq<char>,
) -> bool {
    forall|d: nat, s: String|
        s@ == name ==> (#[trigger] check_node(table, stack, d, Node::Partial(s))) is Some
}

proof fn lemma_refs_fail_nodes(
    table: Seq<(String, Vec<Node>)>,
    stack: Seq<usize>,
    d: nat,
    nodes: Seq<Node>,
    name: Seq<char>,
)
    requires
        refs_nodes(nodes, name),
        partial_fails(table, stack, name),
    ensures
        check_nodes(table, stack, d, nodes) is Some,
    decreases nodes,
{
    if check_nodes(table, stack, d, nodes.drop_last()) is None {
        if refs_nodes(nodes.drop_last(), name) {
            lemma_refs_fail_nodes(table, stack, d, nodes.drop_last(), name);
        } else {
            lemma_refs_fail_node(table, stack, d, nodes.last(), name);
        }
    }
}

proof fn lemma_refs_fail_node(
    table: Seq<(String, Vec<Node>)>,
    stack: Seq<usize>,
    d: nat,
    n: Node,
    name: Seq<char>,
)
    requires
        refs_node(n, name),
        partial_fails(table, stack, name),
    ensures
        check_node(table, stack, d, n) is Some,
    decreases n,
{
    match n {
        Node::Partial(p) => {
            assert(check_node(table, stack, d, Node::Partial(p)) is Some);
        },
        Node::Each(e) => {
            if parts_err(d, e.args@) is None {
                lemma_refs_fail_nodes(table, stack, d + 1, e.body@, name);
            }
        },
        Node::If(i) => {
            if parts_err(d, i.cond@) is None {
                if refs_nodes(i.then_body@, name) {
                    lemma_refs_fail_nodes(table, stack, d, i.then_body@, name);
                } else if check_nodes(table, stack, d, i.then_body@) is None {
                    lemma_refs_fail_nodes(table, stack, d, i.els@, name);
                }
            }
        },
        _ => {},
    }
}

proof fn lemma_cycle_from(
    table: Seq<(String, Vec<Node>)>,
    chain: Seq<int>,
    i: int,
    stack: Seq<usize>,
)
    requires
        inclusion_cycle(table, chain),
        1 <= i < chain.len(),
        stack.contains(chain[0] as usize),
    ensures
        partial_fails(table, stack, table[chain[i]].0@),
    decreases chain.len() - i,
{
    assert(link(table, chain, i - 1));
    let k = chain[i];
    assert forall|d: nat, s: String| s@ == table[k].0@ implies (#[trigger] check_node(
        table,
        stack,
        d,
        Node::Partial(s),
    )) is Some by {
        if i == chain.len() - 1 {
            assert(stack.contains(k as usize));
        } else if !(stack.contains(k as usize) || stack.len() >= table.len()) {
            let next = stack.push(k as usize);
            assert(next.contains(chain[0] as usize)) by {
                let w = choose|w: int| 0 <= w < stack.len() && stack[w] == chain[0] as usize;
                assert(next[w] == chain[0] as usize);
            }
            assert(link(table, chain, i));
            lemma_cycle_from(table, chain, i + 1, next);
            lemma_refs_fail_nodes(table, next, d, table[k].1@, table[chain[i + 1]].0@);
        }
    }
}

/// A partial that includes itself, directly or through other partials,
/// makes lowering fail: expansion stops at the repeated partial instead of
/// going on forever.
pub proof fn lemma_partial_cycle_fails(
    table: Seq<(String, Vec<Node>)>,
    chain: Seq<int>,
    d: nat,
    s: String,
)
    requires
        inclusion_cycle(table, chain),
        s@ == table[chain[0]].0@,
    ensures
        check_node(table, Seq::empty(), d, Node::Partial(s)) is Some,
{
    let last = chain.len() - 1;
    assert(link(table, chain, last - 1));
    assert(link(table, chain, 0));
    let k = chain[0];
    let first = Seq::<usize>::empty().push(k as usize);
    assert(first[0] == k as usize);
    lemma_cycle_from(table, chain, 1, first);
    lemma_refs_fail_nodes(table, first, d, table[k].1@, table[chain[1]].0@);
}

/// A partial whose only content is itself fails with the recursion error.
pub proof fn lemma_self_inclusion(table: Seq<(String, Vec<Node>)>, k: int, d: nat, s: String)
    requires
        0 <= k < table.len(),
        find_partial(table, table[k].0@, 0) == k,
        s@ == table[k].0@,
        table[k].1@ == seq![Node::Partial(s)],
    ensures
        check_node(table, Seq::empty(), d, Node::Partial(s)) == Some(ErrorKind::Recursion),
{
    let first = Seq::<usize>::empty().push(k as usize);
    assert(first[0] == k as usize);
    let nodes = table[k].1@;
    assert(nodes.drop_last() =~= Seq::<Node>::empty());
    assert(nodes.last() == Node::Partial(s));
    assert(check_node(table, first, d, Node::Partial(s)) == Some(ErrorKind::Recursion));
    assert(check_nodes(table, first, d, nodes.drop_last()) is None);
    assert(check_nodes(table, first, d, nodes) == Some(ErrorKind::Recursion));
}

} // verus!
