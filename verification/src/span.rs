//! Byte spans into a source text.
use vstd::prelude::*;

verus! {

/// A region of a source text: the byte offset where it starts, and its length
/// in bytes.
#[derive(Debug, Clone, Copy, PartialEq, Eq, Structural)]
pub struct SourceSpan {
    pub offset: usize,
    pub length: usize,
}

impl SourceSpan {
    /// The span from `start` up to `end`, where `start` does not lie behind
    /// `end`.
    pub open spec fn spec_between(start: usize, end: usize) -> Option<SourceSpan> {
        if start <= end {
            Some(SourceSpan { offset: start, length: (end - start) as usize })
        } else {
            None
        }
    }

    /// The span that covers the bytes from `start` up to, not including,
    /// `end`; `None` where `end` lies before `start`.
    #[verifier::when_used_as_spec(spec_between)]
    pub fn between(start: usize, end: usize) -> (span: Option<SourceSpan>)
        ensures
            span == Self::spec_between(start, end),
    {
        if start <= end {
            Some(SourceSpan { offset: start, length: end - start })
        } else {
            None
        }
    }

    /// The span of a pair of bounds, if there is a pair and it is in order.
    pub open spec fn of_location(location: Option<(usize, usize)>) -> Option<SourceSpan> {
        match location {
            Some((start, end)) => Self::spec_between(start, end),
            None => None,
        }
    }
}

} // verus!
