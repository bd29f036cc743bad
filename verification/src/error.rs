use vstd::prelude::*;

verus! {

/// Errors of the core library.
#[derive(Debug, Clone, PartialEq, Eq)]
pub enum MiasmaError {
    /// Fewer shares than needed.
    InsufficientShares { need: usize, got: usize },
    /// Encryption failed.
    Encryption(String),
    /// Decryption or authentication failed, or a blob is malformed.
    Decryption(String),
    /// Key derivation failed.
    KeyDerivation(String),
    /// A message could not be encoded or decoded.
    Serialization(String),
    /// Secret sharing failed (also used for malformed relay layers).
    Sss(String),
    /// A network path could not be had.
    Network(String),
}

} // verus!
