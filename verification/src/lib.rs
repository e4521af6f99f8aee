//! A stream text-search engine: it splits a block of input text into lines,
//! locates all non-overlapping regular-expression matches in each line, and
//! re-renders each line with the matched spans highlighted, optionally
//! suppressing lines without a match.

pub mod highlight;
pub mod lines;
pub mod matching;
pub mod process;
