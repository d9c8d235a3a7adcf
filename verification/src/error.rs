//! Error types of the library.

use vstd::prelude::*;

verus! {

/// What can go wrong when secrets are kept in memory or presence is asked for.
#[derive(Debug, PartialEq, Eq)]
pub enum Error {
    /// A buffer, slot or cipher could not be set up or used.
    Memory(String),
    /// A sealed secret did not authenticate.
    DecryptFailed { detail: String },
    /// The platform has no biometric authenticator.
    PresenceNotAvailable,
    /// The request is known but has no implementation yet.
    NotImplemented { feature: String },
}

/// What can go wrong when a stored key is prepared for use.
#[derive(Debug, PartialEq, Eq)]
pub enum StorageError {
    /// The key must not be used; the text says why.
    KeyInitFailed(String),
}

/// `error` is a memory error with this text.
pub open spec fn is_memory_error(error: Error, text: Seq<char>) -> bool {
    error matches Error::Memory(t) && t@ == text
}

/// `error` refuses a key with this text.
pub open spec fn is_key_init_failure(error: StorageError, text: Seq<char>) -> bool {
    error matches StorageError::KeyInitFailed(t) && t@ == text
}

/// A memory error with the given text.
pub(crate) fn memory_error(text: &str) -> (error: Error)
    ensures
        is_memory_error(error, text@),
{
    Error::Memory(text.to_owned())
}

/// Errors with a text carry that text.
pub proof fn errors_carry_their_text(error: Error, refusal: StorageError, text: Seq<char>)
    ensures
        is_memory_error(error, text) <==> (error matches Error::Memory(t) && t@ == text),
        is_key_init_failure(refusal, text) <==> (refusal matches StorageError::KeyInitFailed(t) && t@
            == text),
{
}

} // verus!
