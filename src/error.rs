use vstd::prelude::*;

verus! {

/// Why a ciphertext was rejected.
#[derive(Debug, Clone, Copy, PartialEq, Eq, Structural)]
pub enum ModeError {
    /// The data to cut into blocks is not a whole number of blocks long.
    InvalidBlockLength,
    /// The ciphertext is shorter than its IV or nonce header.
    TruncatedCiphertext,
}

/// A byte vector result seen as a byte sequence result.
pub open spec fn bytes_result(r: Result<Vec<u8>, ModeError>) -> Result<Seq<u8>, ModeError> {
    match r {
        Ok(v) => Ok(v@),
        Err(e) => Err(e),
    }
}

} // verus!
