//! The per-line pipeline: scanning a line for matches and rendering the
//! decorated result, and the sequential driver over a list of lines, which
//! keeps the input order in its output.

use vstd::prelude::*;
use vstd::string::StringSliceAdditionalSpecFns;
use vstd::utf8::encode_utf8;

use crate::highlight::{highlight_capture, rendered_spans};
use crate::matching::{found_spans, search_regex, spans_of, Pattern};

verus! {

/// What processing one line yields: its rendering when it has a match or when
/// no filtering is asked for, nothing when `only_matching` suppresses it.
pub open spec fn line_output(pat: Seq<char>, line: Seq<u8>, only_matching: bool) -> Option<
    Seq<u8>,
> {
    if found_spans(pat, line).len() == 0 && only_matching {
        None
    } else {
        Some(rendered_spans(line, found_spans(pat, line), 0, 0))
    }
}

/// The outputs of processing `lines` one after another, in order, keeping
/// only the lines that are not suppressed.
pub open spec fn processed(pat: Seq<char>, lines: Seq<Seq<char>>, only_matching: bool) -> Seq<
    Seq<u8>,
>
    decreases lines.len(),
{
    if lines.len() == 0 {
        Seq::empty()
    } else {
        let rest = processed(pat, lines.skip(1), only_matching);
        match line_output(pat, encode_utf8(lines[0]), only_matching) {
            Some(o) => seq![o] + rest,
            None => rest,
        }
    }
}

/// Scans one line against `reg` and renders it; the two steps one worker runs
/// for one line, in either execution mode.
pub fn process_line(line: &str, reg: &Pattern, matches_flag: bool) -> (r: Option<Vec<u8>>)
    ensures
        r is Some <==> line_output(reg@, line.spec_bytes(), matches_flag) is Some,
        r matches Some(out) ==> (line_output(reg@, line.spec_bytes(), matches_flag) matches Some(o)
            && out@ == o),
{
    let captures = search_regex(line, reg);
    let bytes: &[u8] = line.as_bytes();
    let r = highlight_capture(bytes, &captures, matches_flag);
    proof {
        let spans = spans_of(captures@);
        assert(spans.len() == captures@.len());
        if captures@.len() == 0 {
            assert(rendered_spans(bytes@, found_spans(reg@, bytes@), 0, 0) =~= bytes@);
        }
    }
    r
}

/// Processes `lines` sequentially, in input order: the output lists the
/// renderings of the kept lines, first to last.
pub fn process_lines(lines: &Vec<String>, reg: &Pattern, matches_flag: bool) -> (r: Vec<Vec<u8>>)
    ensures
        r.deep_view() == processed(reg@, lines.deep_view(), matches_flag),
{
    let ghost ldv = lines.deep_view();
    let mut out: Vec<Vec<u8>> = Vec::new();
    let mut i: usize = 0;
    proof {
        assert(out.deep_view() =~= Seq::<Seq<u8>>::empty());
        assert(ldv.skip(0) =~= ldv);
        assert(out.deep_view() + processed(reg@, ldv, matches_flag) =~= processed(
            reg@,
            ldv,
            matches_flag,
        ));
    }
    while i < lines.len()
        invariant
            i <= lines@.len(),
            ldv == lines.deep_view(),
            ldv.len() == lines@.len(),
            processed(reg@, ldv, matches_flag) == out.deep_view() + processed(
                reg@,
                ldv.skip(i as int),
                matches_flag,
            ),
        decreases lines@.len() - i,
    {
        let line: &String = &lines[i];
        let ghost old_dv = out.deep_view();
        let ghost tail = ldv.skip(i as int);
        proof {
            assert(line@ == ldv[i as int]);
            assert(tail[0] == ldv[i as int]);
            assert(tail.skip(1) =~= ldv.skip(i + 1));
        }
        if let Some(h) = process_line(line.as_str(), reg, matches_flag) {
            out.push(h);
            proof {
                assert(h.deep_view() =~= h@);
                assert(out.deep_view() =~= old_dv.push(h@));
                assert(old_dv + (seq![h@] + processed(reg@, ldv.skip(i + 1), matches_flag))
                    =~= out.deep_view() + processed(reg@, ldv.skip(i + 1), matches_flag));
            }
        }
        i += 1;
    }
    proof {
        assert(ldv.skip(i as int) =~= Seq::<Seq<char>>::empty());
        assert(out.deep_view() + processed(reg@, ldv.skip(i as int), matches_flag)
            =~= out.deep_view());
    }
    out
}

} // verus!
