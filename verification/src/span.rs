//! Byte ranges of the source text.
use vstd::prelude::*;

verus! {

/// The byte range `start..end` of the source text.
#[derive(Clone, Copy, Debug, PartialEq, Eq, Structural)]
pub struct Span {
    pub start: usize,
    pub end: usize,
}

} // verus!
