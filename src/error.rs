use vstd::prelude::*;

verus! {

/// Why a request could not be handled.
#[derive(Debug, Clone, Copy, PartialEq, Eq, Structural)]
pub enum RequestError {
    /// The head and the body are not separated by a blank line.
    MissingBlankLine,
    /// The request line lacks a non-empty method, URI or version among its
    /// first three space-separated tokens.
    MissingRequestToken,
    /// A non-empty header line has no `": "` between key and value.
    MalformedHeader,
    /// The path has no segment after its first `/`.
    MissingCount,
    /// The count segment of the path is not a non-negative integer.
    InvalidCount,
    /// The path has no pad segment after the count.
    MissingPad,
}

} // verus!
