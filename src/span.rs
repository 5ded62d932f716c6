use vstd::prelude::*;

verus! {

/// A byte range `[lo, hi)` inside the source file numbered `file`.
#[derive(Clone, Copy, Debug, PartialEq, Eq, Structural)]
pub struct Span {
    pub file: usize,
    pub lo: usize,
    pub hi: usize,
}

impl Span {
    pub open spec fn wf(&self) -> bool {
        self.lo <= self.hi
    }

    /// Spans are ordered by file first, then by starting byte.
    pub open spec fn precedes(&self, other: Span) -> bool {
        self.file < other.file || (self.file == other.file && self.lo <= other.lo)
    }

    /// Whether `self` comes no later than `other` in report order.
    pub fn before(&self, other: &Span) -> (r: bool)
        ensures
            r == self.precedes(*other),
    {
        self.file < other.file || (self.file == other.file && self.lo <= other.lo)
    }
}

pub open spec fn is_newline(b: u8) -> bool {
    b == 10u8
}

/// A byte that continues a multi-byte UTF-8 sequence (`10xxxxxx`).
pub open spec fn is_continuation(b: u8) -> bool {
    128u8 <= b && b < 192u8
}

/// First byte of the line holding byte `i`.
pub open spec fn line_begin(b: Seq<u8>, i: int) -> int
    decreases i,
{
    if i <= 0 {
        0
    } else if is_newline(b[i - 1]) {
        i
    } else {
        line_begin(b, i - 1)
    }
}

/// Byte that ends the line holding byte `j`: the next newline, or the end of text.
pub open spec fn line_finish(b: Seq<u8>, j: int) -> int
    decreases b.len() - j,
{
    if j >= b.len() {
        b.len() as int
    } else if is_newline(b[j]) {
        j
    } else {
        line_finish(b, j + 1)
    }
}

/// Number of newlines among the first `i` bytes.
pub open spec fn newlines_before(b: Seq<u8>, i: int) -> nat
    decreases i,
{
    if i <= 0 {
        0
    } else {
        newlines_before(b, i - 1) + if is_newline(b[i - 1]) {
            1nat
        } else {
            0nat
        }
    }
}

/// Number of characters that start among the first `i` bytes.
pub open spec fn chars_before(b: Seq<u8>, i: int) -> nat
    decreases i,
{
    if i <= 0 {
        0
    } else {
        chars_before(b, i - 1) + if is_continuation(b[i - 1]) {
            0nat
        } else {
            1nat
        }
    }
}

proof fn lemma_line_finish_bounds(b: Seq<u8>, j: int)
    requires
        0 <= j <= b.len(),
    ensures
        j <= line_finish(b, j) <= b.len(),
    decreases b.len() - j,
{
    if j < b.len() && !is_newline(b[j]) {
        lemma_line_finish_bounds(b, j + 1);
    }
}

pub(crate) proof fn lemma_chars_monotone(b: Seq<u8>, i: int, j: int)
    requires
        0 <= i <= j,
    ensures
        chars_before(b, i) <= chars_before(b, j),
    decreases j - i,
{
    if i < j {
        lemma_chars_monotone(b, i, j - 1);
    }
}

/// Start of the line that holds byte `i`.
pub fn line_start_of(b: &[u8], i: usize) -> (r: usize)
    requires
        i <= b@.len(),
    ensures
        r == line_begin(b@, i as int),
        r <= i,
{
    let mut k: usize = i;
    while k > 0 && b[k - 1] != 10u8
        invariant
            k <= i <= b@.len(),
            line_begin(b@, k as int) == line_begin(b@, i as int),
        decreases k,
    {
        k = k - 1;
    }
    k
}

/// End of the line that holds byte `j`: the next newline or the end of text.
pub fn line_end_of(b: &[u8], j: usize) -> (r: usize)
    requires
        j <= b@.len(),
    ensures
        r == line_finish(b@, j as int),
        j <= r <= b@.len(),
{
    let mut k: usize = j;
    while k < b.len() && b[k] != 10u8
        invariant
            j <= k <= b@.len(),
            line_finish(b@, k as int) == line_finish(b@, j as int),
        decreases b@.len() - k,
    {
        k = k + 1;
    }
    proof {
        lemma_line_finish_bounds(b@, j as int);
    }
    k
}

/// One-based number of the line that holds byte `i`.
pub fn line_number_of(b: &[u8], i: usize) -> (r: usize)
    requires
        i <= b@.len(),
        i < usize::MAX,
    ensures
        r == newlines_before(b@, i as int) + 1,
{
    let mut n: usize = 1;
    let mut k: usize = 0;
    while k < i
        invariant
            k <= i <= b@.len(),
            i < usize::MAX,
            n == newlines_before(b@, k as int) + 1,
            n <= k + 1,
        decreases i - k,
    {
        if b[k] == 10u8 {
            n = n + 1;
        }
        k = k + 1;
    }
    n
}

/// Number of characters that start among the first `i` bytes of UTF-8 text.
pub fn chars_in_prefix(b: &[u8], i: usize) -> (r: usize)
    requires
        i <= b@.len(),
    ensures
        r == chars_before(b@, i as int),
{
    let mut n: usize = 0;
    let mut k: usize = 0;
    while k < i
        invariant
            k <= i <= b@.len(),
            n == chars_before(b@, k as int),
            n <= k,
        decreases i - k,
    {
        let c = b[k];
        if !(128u8 <= c && c < 192u8) {
            n = n + 1;
        }
        k = k + 1;
    }
    n
}

/// Character range of the byte range `[lo, hi)`, counted from the start of `b`.
pub fn bytes_to_chars(b: &[u8], lo: usize, hi: usize) -> (r: (usize, usize))
    requires
        lo <= hi <= b@.len(),
    ensures
        r.0 == chars_before(b@, lo as int),
        r.1 == chars_before(b@, hi as int),
        r.0 <= r.1,
{
    proof {
        lemma_chars_monotone(b@, lo as int, hi as int);
    }
    (chars_in_prefix(b, lo), chars_in_prefix(b, hi))
}

} // verus!
