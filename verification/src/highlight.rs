//! The highlighter: re-rendering a line from its original bytes and its match
//! spans, wrapping each matched span in a colour decoration and copying every
//! unmatched byte through unchanged.

use owo_colors::OwoColorize;
use vstd::prelude::*;
use vstd::slice::slice_to_vec;
use vstd::utf8::valid_utf8;

use crate::matching::{spans_of, wf_matches, wf_spans, Match};

verus! {

/// Red component of the highlight colour.
pub const HIGHLIGHT_R: u8 = 112;

/// Green component of the highlight colour.
pub const HIGHLIGHT_G: u8 = 110;

/// Blue component of the highlight colour.
pub const HIGHLIGHT_B: u8 = 255;

/// The decimal digits of `n`, as ASCII bytes without leading zeros.
pub open spec fn dec_digits(n: u8) -> Seq<u8> {
    if n < 10 {
        seq![(0x30 + n) as u8]
    } else if n < 100 {
        seq![(0x30 + n / 10) as u8, (0x30 + n % 10) as u8]
    } else {
        seq![(0x30 + n / 100) as u8, (0x30 + (n / 10) % 10) as u8, (0x30 + n % 10) as u8]
    }
}

/// The ANSI escape that switches the foreground to the 24-bit colour
/// `r`, `g`, `b`: `ESC [ 3 8 ; 2 ;` then the three decimal components
/// separated by `;`, closed with `m`.
pub open spec fn fg_escape(r: u8, g: u8, b: u8) -> Seq<u8> {
    seq![0x1bu8, 0x5b, 0x33, 0x38, 0x3b, 0x32, 0x3b] + dec_digits(r) + seq![0x3bu8] + dec_digits(g)
        + seq![0x3bu8] + dec_digits(b) + seq![0x6du8]
}

/// The ANSI escape that restores the default foreground: `ESC [ 3 9 m`.
pub open spec fn fg_reset() -> Seq<u8> {
    seq![0x1bu8, 0x5b, 0x33, 0x39, 0x6d]
}

/// `text` wrapped in the foreground-colour escapes for `r`, `g`, `b`.
pub open spec fn colored_with(text: Seq<u8>, r: u8, g: u8, b: u8) -> Seq<u8> {
    fg_escape(r, g, b) + text + fg_reset()
}

/// The decoration applied to one matched span: the matched bytes wrapped in
/// the highlight colour.
pub open spec fn decorated(text: Seq<u8>) -> Seq<u8> {
    colored_with(text, HIGHLIGHT_R, HIGHLIGHT_G, HIGHLIGHT_B)
}

/// Relies on owo_colors' `truecolor` styling, whose `Display` writes the
/// ANSI 24-bit foreground escape, then the text unchanged, then the
/// default-foreground escape, from its arguments alone.
#[verifier::external_body]
fn style_truecolor(text: &Vec<u8>, r: u8, g: u8, b: u8) -> (res: Vec<u8>)
    requires
        valid_utf8(text@),
    ensures
        res@ == colored_with(text@, r, g, b),
{
    match core::str::from_utf8(text.as_slice()) {
        Ok(s) => s.truecolor(r, g, b).to_string().into_bytes(),
        Err(_) => text.clone(),
    }
}

/// The decorated rendering of `line` from byte `cursor` on, for the spans
/// `spans[i..]`: each unmatched gap copied verbatim, each matched span
/// decorated, and the tail after the last span copied verbatim.
pub open spec fn rendered_spans(line: Seq<u8>, spans: Seq<(int, int)>, i: int, cursor: int) -> Seq<
    u8,
>
    decreases spans.len() - i,
{
    if i < 0 || i >= spans.len() {
        line.subrange(cursor, line.len() as int)
    } else {
        line.subrange(cursor, spans[i].0) + decorated(line.subrange(spans[i].0, spans[i].1))
            + rendered_spans(line, spans, i + 1, spans[i].1)
    }
}

/// As `rendered_spans`, but with each matched span copied raw in place of its
/// decorated form: the reading of the output in which decoration is stripped.
pub open spec fn restored_spans(line: Seq<u8>, spans: Seq<(int, int)>, i: int, cursor: int) -> Seq<
    u8,
>
    decreases spans.len() - i,
{
    if i < 0 || i >= spans.len() {
        line.subrange(cursor, line.len() as int)
    } else {
        line.subrange(cursor, spans[i].0) + line.subrange(spans[i].0, spans[i].1)
            + restored_spans(line, spans, i + 1, spans[i].1)
    }
}

proof fn lemma_restored_spans(line: Seq<u8>, spans: Seq<(int, int)>, i: int, cursor: int)
    requires
        wf_spans(spans, line.len() as int),
        0 <= i,
        0 <= cursor <= line.len(),
        i < spans.len() ==> cursor <= spans[i].0,
    ensures
        restored_spans(line, spans, i, cursor) == line.subrange(cursor, line.len() as int),
    decreases spans.len() - i,
{
    if i < spans.len() {
        lemma_restored_spans(line, spans, i + 1, spans[i].1);
        assert(line.subrange(cursor, spans[i].0) + line.subrange(spans[i].0, spans[i].1)
            + line.subrange(spans[i].1, line.len() as int) =~= line.subrange(
            cursor,
            line.len() as int,
        ));
    }
}

/// Round-trip identity: for any well-formed span list, concatenating the
/// copied gaps and the raw matched spans, in order, reproduces the line
/// exactly; stripping the decoration from a rendered line gives the line
/// back.
pub proof fn lemma_round_trip(line: Seq<u8>, spans: Seq<(int, int)>)
    requires
        wf_spans(spans, line.len() as int),
    ensures
        restored_spans(line, spans, 0, 0) == line,
{
    lemma_restored_spans(line, spans, 0, 0);
    assert(line.subrange(0, line.len() as int) =~= line);
}

/// Appends `src[from..to]` to `out`.
fn push_range(out: &mut Vec<u8>, src: &[u8], from: usize, to: usize)
    requires
        from <= to <= src@.len(),
    ensures
        final (out)@ == old(out)@ + src@.subrange(from as int, to as int),
{
    let mut i: usize = from;
    while i < to
        invariant
            from <= i <= to <= src@.len(),
            out@ == old(out)@ + src@.subrange(from as int, i as int),
        decreases to - i,
    {
        out.push(src[i]);
        proof {
            assert(src@.subrange(from as int, i + 1) =~= src@.subrange(from as int, i as int).push(
                src@[i as int],
            ));
        }
        i += 1;
    }
    proof {
        assert(out@ =~= old(out)@ + src@.subrange(from as int, to as int));
    }
}

/// Re-renders `line` from its match list: every unmatched byte is copied
/// through unchanged and every matched span is wrapped in the highlight
/// decoration. With `matches_flag` set, a line without matches is suppressed
/// instead of passed through.
pub fn highlight_capture(line: &[u8], captures: &Vec<Match>, matches_flag: bool) -> (r: Option<
    Vec<u8>,
>)
    requires
        wf_matches(captures@, line@),
    ensures
        r is Some <==> (!matches_flag || captures@.len() > 0),
        captures@.len() == 0 && matches_flag ==> r is None,
        captures@.len() == 0 && !matches_flag ==> (r matches Some(out) && out@ == line@),
        captures@.len() > 0 ==> (r matches Some(out) && out@ == rendered_spans(
            line@,
            spans_of(captures@),
            0,
            0,
        )),
{
    if captures.len() == 0 {
        if matches_flag {
            return None;
        } else {
            return Some(slice_to_vec(line));
        }
    }
    let ghost spans = spans_of(captures@);
    let mut new: Vec<u8> = Vec::new();
    let mut last_match: usize = 0;
    let mut k: usize = 0;
    while k < captures.len()
        invariant
            wf_matches(captures@, line@),
            spans == spans_of(captures@),
            k <= captures@.len(),
            last_match <= line@.len(),
            k < captures@.len() ==> last_match <= captures@[k as int].start,
            new@ + rendered_spans(line@, spans, k as int, last_match as int) == rendered_spans(
                line@,
                spans,
                0,
                0,
            ),
        decreases captures@.len() - k,
    {
        let cap = &captures[k];
        let ghost prev = new@;
        push_range(&mut new, line, last_match, cap.start);
        let mut deco = style_truecolor(&cap.text, HIGHLIGHT_R, HIGHLIGHT_G, HIGHLIGHT_B);
        new.append(&mut deco);
        proof {
            assert(captures@[k as int].text@ == line@.subrange(spans[k as int].0, spans[k as int].1));
            assert(new@ =~= prev + line@.subrange(last_match as int, spans[k as int].0) + decorated(
                line@.subrange(spans[k as int].0, spans[k as int].1),
            ));
            assert(rendered_spans(line@, spans, k as int, last_match as int) == line@.subrange(
                last_match as int,
                spans[k as int].0,
            ) + decorated(line@.subrange(spans[k as int].0, spans[k as int].1)) + rendered_spans(
                line@,
                spans,
                k + 1,
                spans[k as int].1,
            ));
            assert(new@ + rendered_spans(line@, spans, k + 1, spans[k as int].1) =~= prev
                + rendered_spans(line@, spans, k as int, last_match as int));
            if k + 1 < captures@.len() {
                assert(spans[k as int].1 <= spans[k + 1].0);
            }
        }
        last_match = cap.end;
        k += 1;
    }
    push_range(&mut new, line, last_match, line.len());
    proof {
        assert(rendered_spans(line@, spans, k as int, last_match as int) == line@.subrange(
            last_match as int,
            line@.len() as int,
        ));
    }
    Some(new)
}

} // verus!
