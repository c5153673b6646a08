//! What a matcher reports when the input does not fit the grammar.

use vstd::prelude::*;

verus! {

/// The element of the grammar that was looked for where matching stopped.
#[derive(Clone, Copy, Debug, PartialEq, Eq, Structural)]
pub enum Expected {
    /// The `__` that opens an internal tag.
    OpeningMarker,
    /// The `__` that closes an internal tag.
    ClosingMarker,
    /// At least one character between the two markers.
    InternalTag,
    /// The literal `user`.
    UserPrefix,
    /// At least one character of user tag.
    Tag,
    /// A position from which the rest of the name is a version and suffix.
    Tail,
    /// The `_` that opens a version.
    VersionPrefix,
    /// A decimal digit.
    Digit,
    /// The literal `.dat`.
    Suffix,
    /// The literal `.bak`.
    BackupMarker,
    /// Nothing more.
    EndOfInput,
}

/// A failed match over characters: the input left where matching stopped, and
/// what was looked for there.
pub struct Mismatch {
    pub remainder: Seq<char>,
    pub expected: Expected,
}

/// A failed match: the slice of the input left where matching stopped, and
/// what was looked for there.
#[derive(Clone, Copy, Debug, PartialEq, Eq)]
pub struct ParseFailure<'a> {
    pub remainder: &'a str,
    pub expected: Expected,
}

impl<'a> View for ParseFailure<'a> {
    type V = Mismatch;

    open spec fn view(&self) -> Mismatch {
        Mismatch { remainder: self.remainder@, expected: self.expected }
    }
}

} // verus!
