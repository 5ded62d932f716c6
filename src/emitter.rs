use vstd::prelude::*;
use vstd::utf8::encode_utf8;

use annotate_snippets::display_list::{DisplayList, FormatOptions};
use annotate_snippets::snippet::{Annotation, AnnotationType, Slice, Snippet, SourceAnnotation};

use crate::error::{ErrorMessage, KiError};
use crate::span::{
    bytes_to_chars, chars_before, lemma_chars_monotone, line_begin, line_end_of, line_finish, line_number_of,
    line_start_of, newlines_before, Span,
};

verus! {

/// How a report is printed.
pub struct Config {
    pub color: bool,
    pub prefix: Option<String>,
}

/// One loaded template file; its number in the source list is its file id.
pub struct Source {
    pub path: String,
    pub text: String,
}

/// The source files of one compilation, with the report settings.
pub struct EmitterConfig {
    pub sources: Vec<Source>,
    pub config: Config,
}

/// What a report needs to know about the compilation it reports on.
pub trait Emitter {
    /// `(path, text)` of each source file, by file id.
    spec fn spec_sources(&self) -> Seq<(Seq<char>, Seq<char>)>;

    spec fn spec_prefix(&self) -> Seq<char>;

    spec fn spec_color(&self) -> bool;

    fn color(&self) -> (r: bool)
        ensures
            r == self.spec_color(),
    ;

    /// Directory that the paths in a report are shown relative to.
    fn prefix(&self) -> (r: String)
        ensures
            r@ == self.spec_prefix(),
    ;

    fn get(&self, file: usize) -> (r: Option<&Source>)
        ensures
            r is Some <==> file < self.spec_sources().len(),
            r matches Some(s) ==> (s.path@, s.text@) == self.spec_sources()[file as int],
    ;

    fn config(&self) -> (r: &Config)
        ensures
            r.color == self.spec_color(),
    ;
}

pub open spec fn source_view(s: Source) -> (Seq<char>, Seq<char>) {
    (s.path@, s.text@)
}

impl Emitter for EmitterConfig {
    open spec fn spec_sources(&self) -> Seq<(Seq<char>, Seq<char>)> {
        self.sources@.map_values(|s: Source| source_view(s))
    }

    open spec fn spec_prefix(&self) -> Seq<char> {
        match self.config.prefix {
            Some(p) => p@,
            None => Seq::empty(),
        }
    }

    open spec fn spec_color(&self) -> bool {
        self.config.color
    }

    fn color(&self) -> (r: bool) {
        self.config.color
    }

    fn prefix(&self) -> (r: String) {
        match &self.config.prefix {
            Some(p) => p.clone(),
            None => String::new(),
        }
    }

    fn get(&self, file: usize) -> (r: Option<&Source>) {
        if file < self.sources.len() {
            Some(&self.sources[file])
        } else {
            None
        }
    }

    fn config(&self) -> (r: &Config) {
        &self.config
    }
}

/// Position at which `e` enters the sorted sequence `s`: after every element
/// that does not come later than `e`.
pub open spec fn insert_pos<M>(s: Seq<ErrorMessage<M>>, e: Span, k: int) -> int
    decreases k,
{
    if k <= 0 {
        0
    } else if !s[k - 1].span.precedes(e) {
        insert_pos(s, e, k - 1)
    } else {
        k
    }
}

pub open spec fn insert_sorted<M>(s: Seq<ErrorMessage<M>>, e: ErrorMessage<M>) -> Seq<
    ErrorMessage<M>,
> {
    s.insert(insert_pos(s, e.span, s.len() as int), e)
}

/// The errors in report order: by file, then by starting byte, ties kept in
/// the order they came.
pub open spec fn sort_spec<M>(s: Seq<ErrorMessage<M>>) -> Seq<ErrorMessage<M>>
    decreases s.len(),
{
    if s.len() == 0 {
        s
    } else {
        insert_sorted(sort_spec(s.drop_last()), s.last())
    }
}

pub open spec fn sorted_by_span<M>(s: Seq<ErrorMessage<M>>) -> bool {
    forall|i: int, j: int| 0 <= i < j < s.len() ==> (#[trigger] s[i]).span.precedes(#[trigger] s[j].span)
}

proof fn lemma_insert_pos_bounds<M>(s: Seq<ErrorMessage<M>>, e: Span, k: int)
    requires
        0 <= k <= s.len(),
    ensures
        0 <= insert_pos(s, e, k) <= k,
        forall|j: int| insert_pos(s, e, k) <= j < k ==> !(#[trigger] s[j]).span.precedes(e),
        insert_pos(s, e, k) > 0 ==> s[insert_pos(s, e, k) - 1].span.precedes(e),
    decreases k,
{
    if k > 0 && !s[k - 1].span.precedes(e) {
        lemma_insert_pos_bounds(s, e, k - 1);
    }
}

proof fn lemma_insert_sorted<M>(s: Seq<ErrorMessage<M>>, e: ErrorMessage<M>)
    requires
        sorted_by_span(s),
    ensures
        sorted_by_span(insert_sorted(s, e)),
        insert_sorted(s, e).len() == s.len() + 1,
{
    let p = insert_pos(s, e.span, s.len() as int);
    lemma_insert_pos_bounds(s, e.span, s.len() as int);
    let t = insert_sorted(s, e);
    assert forall|i: int, j: int| 0 <= i < j < t.len() implies (#[trigger] t[i]).span.precedes(
        #[trigger] t[j].span,
    ) by {
        if i < p && j == p {
            assert(s[p - 1].span.precedes(e.span));
            if i < p - 1 {
                assert(s[i].span.precedes(s[p - 1].span));
            }
        } else if i == p && j > p {
            assert(!s[j - 1].span.precedes(e.span));
        } else if i < p && j > p {
            assert(s[i].span.precedes(s[j - 1].span));
        } else if i > p {
            assert(s[i - 1].span.precedes(s[j - 1].span));
        }
    }
}

/// Report order: sorting puts every error no later than the ones after it.
pub proof fn lemma_report_order<M>(s: Seq<ErrorMessage<M>>)
    ensures
        sorted_by_span(sort_spec(s)),
        sort_spec(s).len() == s.len(),
    decreases s.len(),
{
    if s.len() > 0 {
        lemma_report_order(s.drop_last());
        lemma_insert_sorted(sort_spec(s.drop_last()), s.last());
    }
}

/// Puts the errors in report order: by file, then by starting byte.
pub fn sort_errors<M>(errors: Vec<ErrorMessage<M>>) -> (r: Vec<ErrorMessage<M>>)
    ensures
        r@ == sort_spec(errors@),
{
    let ghost all = errors@;
    let mut rest = errors;
    let mut out: Vec<ErrorMessage<M>> = Vec::new();
    let mut i: usize = 0;
    let n = rest.len();
    while rest.len() > 0
        invariant
            n == all.len(),
            i <= n,
            rest@ == all.subrange(i as int, n as int),
            out@ == sort_spec(all.subrange(0, i as int)),
        decreases rest.len(),
    {
        let e = rest.remove(0);
        let ghost before = out@;
        let mut k: usize = out.len();
        while k > 0 && !out[k - 1].span.before(&e.span)
            invariant
                out@ == before,
                k <= out.len(),
                insert_pos(before, e.span, k as int) == insert_pos(
                    before,
                    e.span,
                    before.len() as int,
                ),
            decreases k,
        {
            k = k - 1;
        }
        out.insert(k, e);
        proof {
            let next = all.subrange(0, i as int + 1);
            assert(next.drop_last() =~= all.subrange(0, i as int));
            assert(next.last() == all[i as int]);
        }
        i = i + 1;
    }
    proof {
        assert(all.subrange(0, n as int) =~= all);
    }
    out
}

/// Directory prefix removed from a path, component-wise; `None` when the path
/// does not lie under it.
pub open spec fn strip_spec(path: Seq<char>, prefix: Seq<char>) -> Option<Seq<char>> {
    if prefix.len() == 0 {
        Some(path)
    } else if prefix.len() <= path.len() && path.subrange(0, prefix.len() as int) == prefix {
        let rest = path.subrange(prefix.len() as int, path.len() as int);
        if rest.len() == 0 {
            Some(rest)
        } else if rest[0] == '/' {
            Some(rest.subrange(1, rest.len() as int))
        } else if prefix.last() == '/' {
            Some(rest)
        } else {
            None
        }
    } else {
        None
    }
}

/// Removes the directory `prefix` from `path`.
pub fn strip_path_prefix(path: &str, prefix: &str) -> (r: Option<String>)
    ensures
        r is Some <==> strip_spec(path@, prefix@) is Some,
        r matches Some(s) ==> s@ == strip_spec(path@, prefix@)->0,
{
    let n = path.unicode_len();
    let m = prefix.unicode_len();
    if m == 0 {
        return Some(path.to_owned());
    }
    if m > n {
        return None;
    }
    let mut k: usize = 0;
    while k < m
        invariant
            m <= n,
            n == path@.len(),
            m == prefix@.len(),
            k <= m,
            forall|j: int| 0 <= j < k ==> path@[j] == prefix@[j],
        decreases m - k,
    {
        if path.get_char(k) != prefix.get_char(k) {
            proof {
                assert(path@.subrange(0, m as int)[k as int] != prefix@[k as int]);
            }
            return None;
        }
        k = k + 1;
    }
    proof {
        assert(path@.subrange(0, m as int) =~= prefix@);
    }
    if m == n {
        Some(path.substring_char(m, n).to_owned())
    } else if path.get_char(m) == '/' {
        Some(path.substring_char(m + 1, n).to_owned())
    } else if prefix.get_char(m - 1) == '/' {
        Some(path.substring_char(m, n).to_owned())
    } else {
        None
    }
}

/// One annotated excerpt of a report, as its printer takes it.
pub struct ReportSlice {
    /// The source lines that hold the span, without the final newline.
    pub source: String,
    /// One-based number of the first of those lines.
    pub line_start: usize,
    /// Path of the file, relative to the report prefix.
    pub origin: String,
    pub label: String,
    /// Character range of the span inside `source`.
    pub lo: usize,
    pub hi: usize,
}

pub type SliceView = (Seq<char>, usize, Seq<char>, Seq<char>, usize, usize);

impl View for ReportSlice {
    type V = SliceView;

    open spec fn view(&self) -> SliceView {
        (self.source@, self.line_start, self.origin@, self.label@, self.lo, self.hi)
    }
}

/// The text that the snippet printer makes of `slices`, one error annotation
/// under a plain `error` title each.
pub uninterp spec fn snippet_text(slices: Seq<SliceView>, color: bool) -> Seq<char>;

/// Relies on annotate_snippets' `DisplayList::from(Snippet)` and its `Display`:
/// prints the annotated excerpts. It panics when an annotation ends past the
/// characters of its excerpt, which `requires` rules out.
#[verifier::external_body]
fn render_snippet(slices: &Vec<ReportSlice>, color: bool) -> (r: String)
    requires
        forall|i: int|
            0 <= i < slices@.len() ==> (#[trigger] slices@[i]).lo <= slices@[i].hi
                <= slices@[i].source@.len(),
    ensures
        r@ == snippet_text(slices@.map_values(|s: ReportSlice| s@), color),
{
    let slices = slices.iter().map(|s| Slice {
        source: &s.source, line_start: s.line_start, origin: Some(&s.origin), fold: false,
        annotations: vec![SourceAnnotation {
            label: &s.label, range: (s.lo, s.hi), annotation_type: AnnotationType::Error,
        }],
    }).collect();
    let title = Some(Annotation { id: None, label: None, annotation_type: AnnotationType::Error });
    let opt = FormatOptions { color, ..Default::default() };
    DisplayList::from(Snippet { title, footer: vec![], slices, opt }).to_string()
}

/// The excerpt for an error with text `label` at `span` of the file `path`
/// holding `text`; `None` when the span does not lie in the text or the path
/// not under `prefix`.
pub open spec fn slice_spec(
    path: Seq<char>,
    text: Seq<char>,
    prefix: Seq<char>,
    label: Seq<char>,
    span: Span,
) -> Option<SliceView> {
    let b = encode_utf8(text);
    if !(span.lo <= span.hi <= b.len() && span.lo < usize::MAX) {
        None
    } else {
        let first = line_begin(b, span.lo as int);
        let last = line_finish(b, span.hi as int);
        let c0 = chars_before(b, first);
        let c1 = chars_before(b, last);
        if c1 > text.len() || strip_spec(path, prefix) is None {
            None
        } else {
            Some(
                (
                    text.subrange(c0 as int, c1 as int),
                    (newlines_before(b, span.lo as int) + 1) as usize,
                    strip_spec(path, prefix)->0,
                    label,
                    (chars_before(b, span.lo as int) - c0) as usize,
                    (chars_before(b, span.hi as int) - c0) as usize,
                ),
            )
        }
    }
}

/// The excerpts of a report, in the order of `errors`; `None` when one error
/// cannot be placed.
pub open spec fn slices_spec<M: KiError>(
    sources: Seq<(Seq<char>, Seq<char>)>,
    prefix: Seq<char>,
    errors: Seq<ErrorMessage<M>>,
) -> Option<Seq<SliceView>>
    decreases errors.len(),
{
    if errors.len() == 0 {
        Some(Seq::empty())
    } else {
        let e = errors.last();
        let one = if e.span.file < sources.len() {
            slice_spec(
                sources[e.span.file as int].0,
                sources[e.span.file as int].1,
                prefix,
                e.message.spec_text(),
                e.span,
            )
        } else {
            None
        };
        match (slices_spec(sources, prefix, errors.drop_last()), one) {
            (Some(s), Some(x)) => Some(s.push(x)),
            _ => None,
        }
    }
}

proof fn lemma_none_stays<M: KiError>(
    sources: Seq<(Seq<char>, Seq<char>)>,
    prefix: Seq<char>,
    errors: Seq<ErrorMessage<M>>,
    k: int,
)
    requires
        0 <= k <= errors.len(),
        slices_spec(sources, prefix, errors.subrange(0, k)) is None,
    ensures
        slices_spec(sources, prefix, errors) is None,
    decreases errors.len() - k,
{
    if k < errors.len() {
        let next = errors.subrange(0, k + 1);
        assert(next.drop_last() =~= errors.subrange(0, k));
        lemma_none_stays(sources, prefix, errors, k + 1);
    } else {
        assert(errors.subrange(0, k) =~= errors);
    }
}

/// Builds the excerpt for one error.
pub fn slice_for<M: KiError>(source: &Source, prefix: &str, err: &ErrorMessage<M>) -> (r: Option<
    ReportSlice,
>)
    ensures
        r matches Some(x) ==> slice_spec(
            source.path@,
            source.text@,
            prefix@,
            err.message.spec_text(),
            err.span,
        ) == Some(x@),
        r matches Some(x) ==> x.lo <= x.hi <= x.source@.len(),
        r is None ==> slice_spec(
            source.path@,
            source.text@,
            prefix@,
            err.message.spec_text(),
            err.span,
        ) is None,
{
    let text = source.text.as_str();
    let b = text.as_bytes();
    let span = err.span;
    if !(span.lo <= span.hi && span.hi <= b.len() && span.lo < usize::MAX) {
        return None;
    }
    let first = line_start_of(b, span.lo);
    let last = line_end_of(b, span.hi);
    let (c0, c1) = bytes_to_chars(b, first, last);
    let (s0, s1) = bytes_to_chars(b, span.lo, span.hi);
    proof {
        let sb = b@;
        lemma_chars_monotone(sb, first as int, span.lo as int);
        lemma_chars_monotone(sb, span.hi as int, last as int);
    }
    if c1 > text.unicode_len() {
        return None;
    }
    let origin = match strip_path_prefix(source.path.as_str(), prefix) {
        Some(o) => o,
        None => {
            return None;
        },
    };
    let line = line_number_of(b, span.lo);
    Some(
        ReportSlice {
            source: text.substring_char(c0, c1).to_owned(),
            line_start: line,
            origin,
            label: err.message.text(),
            lo: s0 - c0,
            hi: s1 - c0,
        },
    )
}

/// Builds the report for `errors`: they are put in report order, and each
/// becomes an excerpt of its source lines with its span underlined and its
/// text beside it. Every error must name a registered file that lies under
/// the prefix; `None` when a span does not lie in its file's text.
pub fn emitter<W: Emitter, M: KiError>(who: &W, errors: Vec<ErrorMessage<M>>) -> (r: Option<
    String,
>)
    requires
        forall|k: int|
            0 <= k < errors@.len() ==> (#[trigger] errors@[k]).span.file < who.spec_sources().len()
                && strip_spec(who.spec_sources()[errors@[k].span.file as int].0, who.spec_prefix())
                is Some,
    ensures
        ({
            let sorted = sort_spec(errors@);
            match slices_spec(who.spec_sources(), who.spec_prefix(), sorted) {
                Some(s) => r is Some && r->0@ == snippet_text(s, who.spec_color()),
                None => r is None,
            }
        }),
{
    let prefix = who.prefix();
    let ghost given = errors@;
    let sorted = sort_errors(errors);
    let mut slices: Vec<ReportSlice> = Vec::new();
    let mut i: usize = 0;
    while i < sorted.len()
        invariant
            i <= sorted@.len(),
            sorted@ == sort_spec(given),
            given == errors@,
            prefix@ == who.spec_prefix(),
            slices_spec(who.spec_sources(), who.spec_prefix(), sorted@.subrange(0, i as int))
                == Some(slices@.map_values(|s: ReportSlice| s@)),
            forall|j: int|
                0 <= j < slices@.len() ==> (#[trigger] slices@[j]).lo <= slices@[j].hi
                    <= slices@[j].source@.len(),
        decreases sorted@.len() - i,
    {
        let err = &sorted[i];
        let ghost sub = sorted@.subrange(0, i as int + 1);
        proof {
            assert(sub.drop_last() =~= sorted@.subrange(0, i as int));
            assert(sub.last() == sorted@[i as int]);
        }
        let one = match who.get(err.span.file) {
            Some(src) => slice_for(src, prefix.as_str(), err),
            None => None,
        };
        match one {
            Some(x) => {
                let ghost old_slices = slices@;
                slices.push(x);
                proof {
                    assert(slices@.map_values(|s: ReportSlice| s@) =~= old_slices.map_values(
                        |s: ReportSlice| s@,
                    ).push(x@));
                }
            },
            None => {
                proof {
                    assert(slices_spec(who.spec_sources(), who.spec_prefix(), sub) is None);
                    lemma_none_stays(who.spec_sources(), who.spec_prefix(), sorted@, i as int + 1);
                }
                return None;
            },
        }
        i = i + 1;
    }
    proof {
        assert(sorted@.subrange(0, i as int) =~= sorted@);
        assert(sorted@ == sort_spec(given));
    }
    Some(render_snippet(&slices, who.color()))
}

} // verus!
