//! Errors of the library.
use vstd::prelude::*;

verus! {

#[derive(Debug, Clone)]
pub enum SnarkFoldError {
    InvalidProof,
    InvalidInstance,
    FoldingError(String),
    HashError(String),
    SerializationError(String),
    VerificationError(String),
}

pub type SnarkFoldResult<T> = core::result::Result<T, SnarkFoldError>;

/// The text that describes an error.
pub open spec fn error_message(e: SnarkFoldError) -> Seq<char> {
    match e {
        SnarkFoldError::InvalidProof => "Invalid proof"@,
        SnarkFoldError::InvalidInstance => "Invalid instance"@,
        SnarkFoldError::FoldingError(m) => "Folding error: "@ + m@,
        SnarkFoldError::HashError(m) => "Hash error: "@ + m@,
        SnarkFoldError::SerializationError(m) => "Serialization error: "@ + m@,
        SnarkFoldError::VerificationError(m) => "Verification error: "@ + m@,
    }
}

impl SnarkFoldError {
    /// The text that describes this error.
    pub fn message(&self) -> (res: String)
        ensures
            res@ == error_message(*self),
    {
        match self {
            SnarkFoldError::InvalidProof => String::from_str("Invalid proof"),
            SnarkFoldError::InvalidInstance => String::from_str("Invalid instance"),
            SnarkFoldError::FoldingError(m) => String::from_str("Folding error: ").concat(m.as_str()),
            SnarkFoldError::HashError(m) => String::from_str("Hash error: ").concat(m.as_str()),
            SnarkFoldError::SerializationError(m) => String::from_str("Serialization error: ").concat(
                m.as_str(),
            ),
            SnarkFoldError::VerificationError(m) => String::from_str("Verification error: ").concat(
                m.as_str(),
            ),
        }
    }
}

} // verus!
