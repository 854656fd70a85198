use vstd::prelude::*;

verus! {

/// The ways an operation of the store can fail.
#[derive(Debug, Clone, Copy, PartialEq, Eq, Structural)]
pub enum StoreError {
    /// A command was used with the wrong arguments.
    ArgumentError,
    /// An index does not name a record of the store.
    IndexOutOfRange,
    /// The password does not match the stored verification digest.
    AuthenticationFailed,
    /// The two entries of a new password differ.
    PasswordMismatch,
    /// The ciphertext does not decrypt to correctly padded data.
    DecryptionFailed,
    /// Decrypted data is not a well-formed record stream: a header is cut
    /// short, a declared length runs past the end, or a field is not UTF-8.
    MalformedRecordData,
    /// A field or the whole record stream is too long for the wire format.
    TooLarge,
}

impl StoreError {
    /// A short message naming the failure.
    pub fn message(&self) -> &'static str {
        match self {
            StoreError::ArgumentError => "invalid arguments",
            StoreError::IndexOutOfRange => "index out of range",
            StoreError::AuthenticationFailed => "incorrect password",
            StoreError::PasswordMismatch => "passwords do not match",
            StoreError::DecryptionFailed => "the record file cannot be decrypted",
            StoreError::MalformedRecordData => "the record file is malformed",
            StoreError::TooLarge => "a record is too large to store",
        }
    }
}

} // verus!
