//! The pattern and the match scanner: compiling a regular expression and
//! locating all non-overlapping matches in one line.
//!
//! A line is handled as the sequence of its bytes; a match is a byte-offset
//! span into that sequence together with the matched bytes themselves.

use vstd::prelude::*;
use vstd::string::StringSliceAdditionalSpecFns;
use vstd::utf8::valid_utf8;

verus! {

#[verifier::external_type_specification]
#[verifier::external_body]
pub struct ExRegex(regex::Regex);

#[verifier::external_type_specification]
#[verifier::external_body]
pub struct ExRegexError(regex::Error);

/// Whether `pat` is a syntactically valid regular expression. The compiler
/// of the regex engine decides this, from the pattern string alone.
pub uninterp spec fn pattern_compiles(pat: Seq<char>) -> bool;

/// The spans, as half-open byte ranges, of the successive non-overlapping
/// matches of the pattern `pat` in the line `hay`. The regex engine finds
/// them, from the pattern and the line alone.
pub uninterp spec fn found_spans(pat: Seq<char>, hay: Seq<u8>) -> Seq<(int, int)>;

/// One located occurrence of the pattern in a line: the half-open byte range
/// `start..end` and the bytes `text` it spans, equal to that slice of the
/// line.
pub struct Match {
    pub start: usize,
    pub end: usize,
    pub text: Vec<u8>,
}

/// The spans of a sequence of matches.
pub open spec fn spans_of(ms: Seq<Match>) -> Seq<(int, int)> {
    ms.map_values(|m: Match| (m.start as int, m.end as int))
}

/// A well-formed span list for a line of length `len`: every span lies within
/// the line, and the spans come in position order without overlap.
pub open spec fn wf_spans(spans: Seq<(int, int)>, len: int) -> bool {
    &&& forall|i: int| 0 <= i < spans.len() ==> 0 <= #[trigger] spans[i].0 <= spans[i].1 <= len
    &&& forall|i: int| 0 <= i && i + 1 < spans.len() ==> #[trigger] spans[i].1 <= spans[i + 1].0
}

/// A well-formed match list for the line `line`: the spans are well formed,
/// and each match carries exactly the bytes its span cuts from the line,
/// themselves a well-formed piece of text.
pub open spec fn wf_matches(ms: Seq<Match>, line: Seq<u8>) -> bool {
    &&& wf_spans(spans_of(ms), line.len() as int)
    &&& forall|i: int| 0 <= i < ms.len() ==> (#[trigger] ms[i].text)@ == line.subrange(
        ms[i].start as int,
        ms[i].end as int,
    )
    &&& forall|i: int| 0 <= i < ms.len() ==> valid_utf8((#[trigger] ms[i].text)@)
}

/// The error of the engine: the pattern string is not a valid regular
/// expression. It is raised once, at compile time, before any line is
/// scanned.
#[derive(Debug, Clone, Copy, PartialEq, Eq, Structural)]
pub enum PatternError {
    InvalidPattern,
}

/// A compiled, immutable pattern, reusable across lines. Its view is the
/// pattern string it was compiled from.
pub struct Pattern {
    re: regex::Regex,
    src: String,
}

impl View for Pattern {
    type V = Seq<char>;

    closed spec fn view(&self) -> Seq<char> {
        self.src@
    }
}

/// Relies on `regex::Regex::new`: it returns the compiled expression exactly
/// when the pattern string is valid regex syntax, and the outcome depends on
/// the pattern string alone.
#[verifier::external_body]
fn regex_new(src: &str) -> (r: Result<regex::Regex, regex::Error>)
    ensures
        r is Ok <==> pattern_compiles(src@),
{
    regex::Regex::new(src)
}

impl Pattern {
    /// Compiles `src`. Succeeds exactly on syntactically valid patterns;
    /// an invalid one is reported as `InvalidPattern` and nothing is scanned.
    pub fn new(src: &str) -> (r: Result<Pattern, PatternError>)
        ensures
            r is Ok <==> pattern_compiles(src@),
            r matches Ok(p) ==> p@ == src@,
            r matches Err(e) ==> e == PatternError::InvalidPattern,
    {
        match regex_new(src) {
            Ok(re) => Ok(Pattern { re, src: src.to_owned() }),
            Err(_) => Err(PatternError::InvalidPattern),
        }
    }

    /// Relies on `regex::Regex::find_iter`: it yields the successive
    /// non-overlapping matches of the pattern in `hay`, in position order,
    /// each given by byte offsets into `hay` with the matched text equal to
    /// the sub-slice of `hay` those offsets cut out.
    #[verifier::external_body]
    fn find_matches(&self, hay: &str) -> (r: Vec<Match>)
        ensures
            spans_of(r@) == found_spans(self@, hay.spec_bytes()),
            wf_matches(r@, hay.spec_bytes()),
    {
        self.re.find_iter(hay).map(
            |m| Match { start: m.start(), end: m.end(), text: m.as_str().as_bytes().to_vec() },
        ).collect()
    }
}

/// Scans one line: all non-overlapping matches of `reg` in `hay`, in position
/// order. An empty result is a normal outcome, not a failure.
pub fn search_regex(hay: &str, reg: &Pattern) -> (r: Vec<Match>)
    ensures
        spans_of(r@) == found_spans(reg@, hay.spec_bytes()),
        wf_matches(r@, hay.spec_bytes()),
{
    reg.find_matches(hay)
}

/// Both offsets of a span list grow monotonically: no later match starts or
/// ends before an earlier one does.
pub open spec fn spans_monotone(spans: Seq<(int, int)>) -> bool {
    forall|i: int, j: int|
        0 <= i <= j < spans.len() ==> (#[trigger] spans[i]).0 <= (#[trigger] spans[j]).0
            && spans[i].1 <= spans[j].1
}

/// In a well-formed span list both offsets grow monotonically: later matches
/// never start or end before earlier ones.
pub proof fn lemma_spans_monotone(spans: Seq<(int, int)>, len: int)
    requires
        wf_spans(spans, len),
    ensures
        spans_monotone(spans),
{
    assert forall|i: int, j: int|
        0 <= i <= j < spans.len() implies (#[trigger] spans[i]).0 <= (#[trigger] spans[j]).0
        && spans[i].1 <= spans[j].1 by {
        lemma_spans_monotone_step(spans, len, i, j);
    }
}

proof fn lemma_spans_monotone_step(spans: Seq<(int, int)>, len: int, i: int, j: int)
    requires
        wf_spans(spans, len),
        0 <= i <= j < spans.len(),
    ensures
        spans[i].0 <= spans[j].0,
        spans[i].1 <= spans[j].1,
    decreases j - i,
{
    if i < j {
        lemma_spans_monotone_step(spans, len, i, j - 1);
        assert(spans[j - 1].1 <= spans[j].0);
    }
}

} // verus!
