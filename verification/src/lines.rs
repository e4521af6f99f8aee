//! The line source: splitting a block of input text into lines.
//!
//! A line is a maximal piece of the input without a terminator; a terminator
//! is a newline, optionally preceded by a carriage return, and is not part of
//! the line. The final terminator is optional: an input without any newline
//! is a single line, and an empty input has no lines at all.

use rayon::iter::ParallelIterator;
use rayon::str::ParallelString;
use vstd::prelude::*;
use vstd::string::StrSliceExecFns;

verus! {

/// Index of the first newline in `s`, or `s.len()` if there is none.
pub open spec fn find_nl(s: Seq<char>) -> int
    decreases s.len(),
{
    if s.len() == 0 {
        0
    } else if s[0] == '\n' {
        0
    } else {
        1 + find_nl(s.skip(1))
    }
}

/// `p` with a single trailing carriage return removed, if it has one.
pub open spec fn chomp_cr(p: Seq<char>) -> Seq<char> {
    if p.len() > 0 && p.last() == '\r' {
        p.drop_last()
    } else {
        p
    }
}

/// The lines of `s`, split at each newline. A piece that a newline terminates
/// loses one carriage return directly before that newline; the final
/// unterminated piece is kept as it stands, and is dropped when empty.
pub open spec fn split_lines(s: Seq<char>) -> Seq<Seq<char>>
    decreases s.len(),
    via split_lines_decreases
{
    if s.len() == 0 {
        Seq::empty()
    } else {
        let j = find_nl(s);
        if j == s.len() {
            seq![s]
        } else {
            seq![chomp_cr(s.take(j))] + split_lines(s.skip(j + 1))
        }
    }
}

/// The lines of `s` as the concurrency-tolerant splitter produces them: as
/// `split_lines`, except that a trailing carriage return is removed from the
/// final unterminated piece as well.
pub open spec fn split_lines_relaxed(s: Seq<char>) -> Seq<Seq<char>>
    decreases s.len(),
    via split_lines_relaxed_decreases
{
    if s.len() == 0 {
        Seq::empty()
    } else {
        let j = find_nl(s);
        if j == s.len() {
            seq![chomp_cr(s)]
        } else {
            seq![chomp_cr(s.take(j))] + split_lines_relaxed(s.skip(j + 1))
        }
    }
}

#[via_fn]
proof fn split_lines_decreases(s: Seq<char>) {
    lemma_find_nl(s);
}

#[via_fn]
proof fn split_lines_relaxed_decreases(s: Seq<char>) {
    lemma_find_nl(s);
}

pub proof fn lemma_find_nl(s: Seq<char>)
    ensures
        0 <= find_nl(s) <= s.len(),
        find_nl(s) < s.len() ==> s[find_nl(s)] == '\n',
        forall|k: int| 0 <= k < find_nl(s) ==> s[k] != '\n',
    decreases s.len(),
{
    if s.len() == 0 {
    } else if s[0] == '\n' {
    } else {
        lemma_find_nl(s.skip(1));
        assert forall|k: int| 0 <= k < find_nl(s) implies s[k] != '\n' by {
            if k > 0 {
                assert(s.skip(1)[k - 1] == s[k]);
            }
        }
        if find_nl(s) < s.len() {
            assert(s.skip(1)[find_nl(s.skip(1))] == s[find_nl(s)]);
        }
    }
}

/// `find_nl` is the one position with no newline before it that either ends
/// the sequence or carries a newline.
pub proof fn lemma_find_nl_unique(s: Seq<char>, m: int)
    requires
        0 <= m <= s.len(),
        forall|k: int| 0 <= k < m ==> s[k] != '\n',
        m < s.len() ==> s[m] == '\n',
    ensures
        find_nl(s) == m,
{
    lemma_find_nl(s);
    let f = find_nl(s);
    if m < f {
        assert(s[m] != '\n');
    } else if f < m {
        assert(s[f] != '\n');
    }
}

/// Splits `pipe` into its lines, in input order.
pub fn split_pipe_by_lines(pipe: String) -> (r: Vec<String>)
    ensures
        r.deep_view() == split_lines(pipe@),
{
    let s: &str = pipe.as_str();
    let len: usize = s.unicode_len();
    let mut out: Vec<String> = Vec::new();
    let mut start: usize = 0;
    proof {
        assert(out.deep_view() =~= Seq::<Seq<char>>::empty());
        assert(s@.skip(0) =~= s@);
        assert(out.deep_view() + split_lines(s@) =~= split_lines(s@));
    }
    while start < len
        invariant
            start <= len,
            len == s@.len(),
            s@ == pipe@,
            split_lines(pipe@) == out.deep_view() + split_lines(s@.skip(start as int)),
        decreases len - start,
    {
        let ghost tail = s@.skip(start as int);
        let mut j: usize = start;
        while j < len && s.get_char(j) != '\n'
            invariant
                start <= j <= len,
                len == s@.len(),
                forall|k: int| start <= k < j ==> s@[k] != '\n',
            decreases len - j,
        {
            j += 1;
        }
        proof {
            assert forall|k: int| 0 <= k < j - start implies tail[k] != '\n' by {
                assert(tail[k] == s@[start + k]);
            }
            if j < len {
                assert(tail[j - start] == s@[j as int]);
            }
            lemma_find_nl_unique(tail, j - start);
        }
        if j == len {
            let ghost old_dv = out.deep_view();
            let piece = s.substring_char(start, len);
            out.push(piece.to_owned());
            proof {
                assert(tail =~= s@.subrange(start as int, len as int));
                assert(split_lines(tail) == seq![tail]);
                assert(out.deep_view() =~= old_dv.push(tail));
                assert(old_dv + seq![tail] =~= out.deep_view());
                assert(split_lines(s@.skip(len as int)) =~= Seq::<Seq<char>>::empty());
                assert(old_dv + split_lines(tail) =~= out.deep_view() + split_lines(
                    s@.skip(len as int),
                ));
            }
            start = len;
        } else {
            let end: usize = if j > start && s.get_char(j - 1) == '\r' {
                j - 1
            } else {
                j
            };
            let ghost old_dv = out.deep_view();
            let piece = s.substring_char(start, end);
            out.push(piece.to_owned());
            proof {
                let taken = tail.take(j - start);
                assert(taken =~= s@.subrange(start as int, j as int));
                if j > start && s@[j - 1] == '\r' {
                    assert(taken.last() == s@[j - 1]);
                    assert(chomp_cr(taken) =~= s@.subrange(start as int, j - 1));
                } else {
                    if taken.len() > 0 {
                        assert(taken.last() == s@[j - 1]);
                    }
                    assert(chomp_cr(taken) =~= s@.subrange(start as int, j as int));
                }
                assert(piece@ == chomp_cr(taken));
                assert(tail.skip(j - start + 1) =~= s@.skip(j + 1));
                assert(split_lines(tail) == seq![chomp_cr(taken)] + split_lines(s@.skip(j + 1)));
                assert(out.deep_view() =~= old_dv.push(chomp_cr(taken)));
                assert(old_dv + split_lines(tail) =~= out.deep_view() + split_lines(
                    s@.skip(j + 1),
                ));
            }
            start = j + 1;
        }
    }
    proof {
        assert(s@.skip(start as int) =~= Seq::<char>::empty());
        assert(out.deep_view() + split_lines(s@.skip(start as int)) =~= out.deep_view());
    }
    out
}

/// Relies on rayon's `par_lines` and on collecting a parallel iterator into a
/// `Vec`: the iterator yields the pieces of the input split at each newline,
/// each piece stripped of one carriage return directly before the split and
/// the final empty piece dropped, and the collection gathers exactly those
/// pieces, in an order the scheduler picks.
#[verifier::external_body]
fn par_lines_vec(pipe: &str) -> (r: Vec<String>)
    ensures
        r.deep_view().to_multiset() == split_lines_relaxed(pipe@).to_multiset(),
{
    pipe.par_lines().map(|line| line.to_string()).collect()
}

/// Splits `pipe` into its lines using a worker pool. The result holds exactly
/// the lines of the input, but their order is left to the scheduler.
pub fn par_split_pipe_by_lines(pipe: String) -> (r: Vec<String>)
    ensures
        r.deep_view().to_multiset() == split_lines_relaxed(pipe@).to_multiset(),
{
    par_lines_vec(pipe.as_str())
}

/// The concurrency-tolerant split agrees with the sequential one whenever the
/// input does not end in a carriage return, so on such inputs the parallel
/// line source yields a permutation of the sequential one's output.
pub proof fn lemma_split_agrees(s: Seq<char>)
    requires
        s.len() == 0 || s.last() != '\r',
    ensures
        split_lines_relaxed(s) == split_lines(s),
    decreases s.len(),
{
    if s.len() > 0 {
        let j = find_nl(s);
        lemma_find_nl(s);
        if j == s.len() {
            assert(chomp_cr(s) == s);
        } else {
            let rest = s.skip(j + 1);
            if rest.len() > 0 {
                assert(rest.last() == s.last());
            }
            lemma_split_agrees(rest);
        }
    }
}

} // verus!
