//! Grid square codes of the Japanese regional mesh (JIS X 0410): a codec between
//! coordinates, fixed-width digit codes and bounding boxes, and the enumeration
//! of the cells that meet a query rectangle.

use vstd::prelude::*;

pub mod gridsquare;

verus! {

/// What a parse or a coordinate derivation can fail with.
#[derive(Debug, Clone, Copy, PartialEq, Eq, Structural)]
pub enum Error {
    /// The digits do not form a code of the level asked for.
    InvalidCode,
    /// The coordinate lies outside the cells that a primary code can name.
    OutOfBounds,
    /// The digits have the width of the x5 level, which has no encoding here.
    UnsupportedLevel,
}

impl Error {
    /// The text that describes the error.
    pub open spec fn message_spec(self) -> Seq<char> {
        match self {
            Error::InvalidCode => "Invalid code"@,
            Error::OutOfBounds => "Out of bounds"@,
            Error::UnsupportedLevel => "Unsupported level"@,
        }
    }

    /// The text that describes the error, as a string slice.
    pub fn message(&self) -> (r: &'static str)
        ensures
            r@ == self.message_spec(),
    {
        match self {
            Error::InvalidCode => "Invalid code",
            Error::OutOfBounds => "Out of bounds",
            Error::UnsupportedLevel => "Unsupported level",
        }
    }
}

} // verus!
