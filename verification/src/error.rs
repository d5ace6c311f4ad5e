//! Why a value could not be read from a proof.

use vstd::prelude::*;

verus! {

/// Why a value could not be read from the bytes of a proof.
#[derive(Clone, Copy, Debug, PartialEq, Eq, Structural)]
pub enum ReadError {
    /// The bytes ended before the encoding did.
    UnexpectedEof,
    /// The bytes are not the encoding of a point of the group.
    InvalidPoint,
    /// The bytes are not the encoding of a scalar.
    InvalidScalar,
}

impl ReadError {
    /// What the error says to a user.
    pub open spec fn text(self) -> Seq<char> {
        match self {
            ReadError::UnexpectedEof => "failed to fill whole buffer"@,
            ReadError::InvalidPoint => "Invalid BLS12-381 point encoding in proof"@,
            ReadError::InvalidScalar => "Invalid BLS12-381 scalar encoding in proof"@,
        }
    }

    /// The message that goes with the error.
    pub fn message(&self) -> (message: &'static str)
        ensures
            message@ == self.text(),
    {
        match self {
            ReadError::UnexpectedEof => "failed to fill whole buffer",
            ReadError::InvalidPoint => "Invalid BLS12-381 point encoding in proof",
            ReadError::InvalidScalar => "Invalid BLS12-381 scalar encoding in proof",
        }
    }
}

} // verus!
