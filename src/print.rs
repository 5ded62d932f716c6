use vstd::prelude::*;

verus! {

/// Whether `s` holds `pat` starting at position `i`.
pub open spec fn occurs_at(s: Seq<char>, pat: Seq<char>, i: int) -> bool {
    0 <= i && i + pat.len() <= s.len() && s.subrange(i, i + pat.len()) == pat
}

/// A version line of a stable cargo release: it starts with `cargo 1` and
/// does not mention `nightly`.
pub open spec fn stable_cargo_spec(v: Seq<char>) -> bool {
    occurs_at(v, "cargo 1"@, 0) && !(exists|i: int| occurs_at(v, "nightly"@, i))
}

fn occurs(s: &str, pat: &str, i: usize) -> (r: bool)
    ensures
        r == occurs_at(s@, pat@, i as int),
{
    let n = s.unicode_len();
    let m = pat.unicode_len();
    if i > n || m > n - i {
        return false;
    }
    let mut k: usize = 0;
    while k < m
        invariant
            n == s@.len(),
            m == pat@.len(),
            i + m <= n,
            k <= m,
            forall|j: int| 0 <= j < k ==> s@[i + j] == pat@[j],
        decreases m - k,
    {
        if s.get_char(i + k) != pat.get_char(k) {
            proof {
                assert(s@.subrange(i as int, i + m)[k as int] != pat@[k as int]);
            }
            return false;
        }
        k = k + 1;
    }
    proof {
        assert(s@.subrange(i as int, i + m) =~= pat@);
    }
    true
}

/// Whether `pat` occurs somewhere in `s`.
pub(crate) fn contains(s: &str, pat: &str) -> (r: bool)
    ensures
        r == exists|i: int| occurs_at(s@, pat@, i),
{
    let n = s.unicode_len();
    let mut i: usize = 0;
    while i <= n
        invariant
            n == s@.len(),
            i <= n + 1,
            forall|j: int| 0 <= j < i ==> !occurs_at(s@, pat@, j),
        decreases n + 1 - i,
    {
        if occurs(s, pat, i) {
            return true;
        }
        if i == n {
            proof {
                assert forall|j: int| !occurs_at(s@, pat@, j) by {
                    if j > n as int {
                        assert(!occurs_at(s@, pat@, j));
                    } else if j >= 0 {
                        assert(j <= i);
                    }
                }
            }
            return false;
        }
        i = i + 1;
    }
    false
}

/// Whether `version`, as `cargo --version` prints it, is a stable release.
pub fn is_stable_cargo(version: &str) -> (r: bool)
    ensures
        r == stable_cargo_spec(version@),
{
    if !occurs(version, "cargo 1", 0) {
        return false;
    }
    let n = version.unicode_len();
    let mut i: usize = 0;
    while i < n
        invariant
            n == version@.len(),
            i <= n,
            forall|j: int| 0 <= j < i ==> !occurs_at(version@, "nightly"@, j),
        decreases n - i,
    {
        if occurs(version, "nightly", i) {
            return false;
        }
        i = i + 1;
    }
    proof {
        reveal_strlit("nightly");
        assert forall|j: int| !occurs_at(version@, "nightly"@, j) by {
            if j >= n {
                assert(!occurs_at(version@, "nightly"@, j));
            }
        }
    }
    true
}

pub open spec fn newlines_in(s: Seq<char>, i: int) -> nat
    decreases i,
{
    if i <= 0 {
        0
    } else {
        newlines_in(s, i - 1) + if s[i - 1] == '\n' {
            1nat
        } else {
            0nat
        }
    }
}

/// Number of lines of `s`, a final newline ending the last line rather than
/// starting a new one.
pub open spec fn line_count(s: Seq<char>) -> nat {
    newlines_in(s, s.len() as int) + if s.len() > 0 && s.last() != '\n' {
        1nat
    } else {
        0nat
    }
}

/// Position where the first `k` lines end (before their last newline).
pub open spec fn lines_end(s: Seq<char>, k: nat, i: int) -> int
    decreases s.len() - i,
{
    if i >= s.len() || i < 0 {
        s.len() as int
    } else if s[i] == '\n' && newlines_in(s, i + 1) == k {
        i
    } else {
        lines_end(s, k, i + 1)
    }
}

/// The first lines of `s`, all but the last `n`, joined by newlines; empty
/// when `s` has no more than `n` lines.
pub open spec fn without_last_lines_spec(s: Seq<char>, n: nat) -> Seq<char> {
    if line_count(s) <= n {
        Seq::empty()
    } else {
        s.subrange(0, lines_end(s, (line_count(s) - n) as nat, 0))
    }
}

proof fn lemma_newlines_bounded(s: Seq<char>, i: int)
    requires
        0 <= i,
    ensures
        newlines_in(s, i) <= i,
    decreases i,
{
    if i > 0 {
        lemma_newlines_bounded(s, i - 1);
    }
}

proof fn lemma_lines_end_bounds(s: Seq<char>, k: nat, i: int)
    requires
        0 <= i <= s.len(),
    ensures
        0 <= lines_end(s, k, i) <= s.len(),
    decreases s.len() - i,
{
    if i < s.len() && !(s[i] == '\n' && newlines_in(s, i + 1) == k) {
        lemma_lines_end_bounds(s, k, i + 1);
    }
}

/// Drops the last `n` lines of `s`: what is left of generated code once the
/// trait impls that close it are cut off.
pub fn without_last_lines(s: &str, n: usize) -> (r: String)
    ensures
        r@ == without_last_lines_spec(s@, n as nat),
{
    let cs = crate::text::chars_of(s);
    let len = cs.len();
    let mut nl: usize = 0;
    let mut i: usize = 0;
    while i < len
        invariant
            len == cs@.len(),
            cs@ == s@,
            i <= len,
            nl == newlines_in(s@, i as int),
            nl <= i,
        decreases len - i,
    {
        if cs[i] == '\n' {
            nl = nl + 1;
        }
        i = i + 1;
    }
    let count = if len > 0 && cs[len - 1] != '\n' {
        proof {
            lemma_newlines_bounded(s@, len - 1);
        }
        nl + 1
    } else {
        nl
    };
    if count <= n {
        return String::new();
    }
    let keep = count - n;
    let mut seen: usize = 0;
    let mut j: usize = 0;
    while j < len && !(cs[j] == '\n' && seen + 1 == keep)
        invariant
            len == cs@.len(),
            cs@ == s@,
            j <= len,
            seen == newlines_in(s@, j as int),
            seen <= j,
            lines_end(s@, keep as nat, j as int) == lines_end(s@, keep as nat, 0),
        decreases len - j,
    {
        if cs[j] == '\n' {
            seen = seen + 1;
        }
        j = j + 1;
    }
    proof {
        lemma_lines_end_bounds(s@, keep as nat, 0);
    }
    s.substring_char(0, j).to_owned()
}

} // verus!
