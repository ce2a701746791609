//! Byte ranges into the scanned text, tagged with the name of the source.
use vstd::prelude::*;

verus! {

/// A half-open byte range `start..end` of the source named `file`.
#[derive(Clone, Debug, PartialEq)]
pub struct Span {
    pub start: usize,
    pub end: usize,
    pub file: String,
}

impl Span {
    pub fn new(start: usize, end: usize, file: &str) -> (r: Span)
        ensures
            r.start == start,
            r.end == end,
            r.file@ == file@,
    {
        Span { start, end, file: file.to_owned() }
    }
}

} // verus!
