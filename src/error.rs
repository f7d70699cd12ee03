use vstd::prelude::*;

verus! {

/// Every way a decode can fail.
#[derive(Debug, Clone, Copy, PartialEq, Eq, Structural)]
pub enum Error {
    /// The stream ended before the value's encoding was complete.
    UnexpectedEnd,
    /// A tagged-union discriminant named no declared variant; carries the tag read.
    KindInvalid(u32),
    /// Text bytes were not valid UTF-8.
    InvalidUtf8,
}

} // verus!
