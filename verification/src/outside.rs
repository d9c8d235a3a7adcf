//! The calls into the cipher, the random number generator and the memory
//! scrubber that the library relies on, with what it relies on them for.
#![allow(deprecated)]

use aes_gcm::aead::Aead;
use aes_gcm::{Aes256Gcm, KeyInit, Nonce};
use rand::TryRngCore;
use vstd::prelude::*;
use zeroize::Zeroize;

verus! {

/// Length of an AES-256 key in bytes.
pub const KEY_LEN: usize = 32;

/// Length of an AES-GCM nonce in bytes.
pub const NONCE_LEN: usize = 12;

/// Length of an AES-GCM authentication tag in bytes.
pub const TAG_LEN: usize = 16;

/// The longest message that the cipher takes, in bytes.
pub const MAX_MESSAGE_LEN: u64 = 0x10_0000_0000;

/// The error of the operating system's random number generator.
#[verifier::external_type_specification]
#[verifier::external_body]
pub struct ExOsError(rand::rand_core::OsError);

/// What AES-256-GCM makes of a message under a key and a nonce, without
/// associated data: the ciphertext with the tag behind it.
pub uninterp spec fn gcm_ciphertext(key: Seq<u8>, nonce: Seq<u8>, message: Seq<u8>) -> Seq<u8>;

/// The message that AES-256-GCM reads from a ciphertext and its tag under a key
/// and a nonce, or nothing where the tag does not fit.
pub uninterp spec fn gcm_plaintext(key: Seq<u8>, nonce: Seq<u8>, sealed: Seq<u8>) -> Option<Seq<u8>>;

/// Calls `Aead::encrypt` of `aes_gcm::Aes256Gcm` without associated data, with a
/// cipher made by `KeyInit::new_from_slice`, which takes any key of `KEY_LEN`
/// bytes; the error carries no more than that it failed.
///
/// Relied on: it succeeds exactly on messages of at most `MAX_MESSAGE_LEN`
/// bytes, the result is a function of key, nonce and message, it is as long as
/// the message and a tag, and decryption under the same key and nonce reads the
/// message back. The bound on the length keeps the result within what a vector
/// can hold.
#[verifier::external_body]
pub(crate) fn gcm_encrypt(key: &[u8], nonce: &[u8], message: &[u8]) -> (res: Option<Vec<u8>>)
    requires
        key@.len() == KEY_LEN,
        nonce@.len() == NONCE_LEN,
        message@.len() + TAG_LEN <= isize::MAX,
    ensures
        res is Some <==> message@.len() <= MAX_MESSAGE_LEN,
        res matches Some(sealed) ==> {
            &&& sealed@ == gcm_ciphertext(key@, nonce@, message@)
            &&& sealed@.len() == message@.len() + TAG_LEN
            &&& gcm_plaintext(key@, nonce@, sealed@) == Some(message@)
        },
{
    let cipher = Aes256Gcm::new_from_slice(key).ok()?;
    cipher.encrypt(Nonce::from_slice(nonce), message).ok()
}

/// Calls `Aead::decrypt` of `aes_gcm::Aes256Gcm` without associated data, with a
/// cipher made by `KeyInit::new_from_slice`, which takes any key of `KEY_LEN`
/// bytes; the error carries no more than that it failed.
///
/// Relied on: the result is a function of key, nonce and ciphertext; where it
/// succeeds, the message is shorter than the ciphertext by the tag, and the
/// ciphertext is the very one that encryption makes of that message (the tag is
/// compared whole and the message is the ciphertext under the same key stream).
#[verifier::external_body]
pub(crate) fn gcm_decrypt(key: &[u8], nonce: &[u8], sealed: &[u8]) -> (res: Option<Vec<u8>>)
    requires
        key@.len() == KEY_LEN,
        nonce@.len() == NONCE_LEN,
    ensures
        res is None ==> gcm_plaintext(key@, nonce@, sealed@) is None,
        res matches Some(message) ==> {
            &&& gcm_plaintext(key@, nonce@, sealed@) == Some(message@)
            &&& message@.len() + TAG_LEN == sealed@.len()
            &&& message@.len() <= MAX_MESSAGE_LEN ==> gcm_ciphertext(key@, nonce@, message@)
                == sealed@
        },
{
    let cipher = Aes256Gcm::new_from_slice(key).ok()?;
    cipher.decrypt(Nonce::from_slice(nonce), sealed).ok()
}

/// Calls `TryRngCore::try_fill_bytes` of `rand::rngs::OsRng` on the whole buffer
/// and hands the buffer back.
///
/// Relied on: the length of the buffer stays. Which bytes come, and whether the
/// operating system delivers them, is left open.
#[verifier::external_body]
pub(crate) fn os_random_fill(buffer: Vec<u8>) -> (res: (
    Vec<u8>,
    Result<(), rand::rand_core::OsError>,
))
    ensures
        res.0@.len() == buffer@.len(),
{
    let mut buffer = buffer;
    let res = rand::rngs::OsRng.try_fill_bytes(buffer.as_mut_slice());
    (buffer, res)
}

/// These bytes, from the first to the last, are what one successful request for
/// so many random bytes of the operating system returned.
pub closed spec fn delivered(bytes: Seq<u8>) -> bool {
    exists|asked: Vec<u8>, reply: (Vec<u8>, Result<(), rand::rand_core::OsError>)|
        {
            &&& #[trigger] call_ensures(os_random_fill, (asked,), reply)
            &&& asked@.len() == bytes.len()
            &&& reply.0@ == bytes
            &&& reply.1 is Ok
        }
}

/// Fills a buffer with random bytes of the operating system, from its first byte
/// to its last.
pub(crate) fn random_fill(buffer: Vec<u8>) -> (res: (
    Vec<u8>,
    Result<(), rand::rand_core::OsError>,
))
    ensures
        res.0@.len() == buffer@.len(),
        res.1 is Ok ==> delivered(res.0@),
{
    let ghost asked = buffer;
    let res = os_random_fill(buffer);
    assert(call_ensures(os_random_fill, (asked,), res));
    res
}

/// Delivered bytes are the whole reply to a single successful call of the
/// generator on a buffer of their number: no part of them is from anywhere else.
pub(crate) proof fn delivered_bytes_come_from_one_call(bytes: Seq<u8>)
    ensures
        delivered(bytes) <==> exists|
            asked: Vec<u8>,
            reply: (Vec<u8>, Result<(), rand::rand_core::OsError>),
        |
            {
                &&& #[trigger] call_ensures(os_random_fill, (asked,), reply)
                &&& asked@.len() == bytes.len()
                &&& reply.0@ == bytes
                &&& reply.1 is Ok
            },
{
}

/// Calls `Zeroize::zeroize` of a byte slice: every byte is zero afterwards and
/// the length stays.
#[verifier::external_body]
pub(crate) fn zeroize_bytes(buffer: &mut Vec<u8>)
    ensures
        final(buffer)@ == Seq::new(old(buffer)@.len(), |i: int| 0u8),
{
    buffer.as_mut_slice().zeroize();
}

/// Calls `Zeroize::zeroize` of a slice of UTF-16 code units: every unit is zero
/// afterwards and the length stays.
#[verifier::external_body]
pub(crate) fn zeroize_units(buffer: &mut Vec<u16>)
    ensures
        final(buffer)@ == Seq::new(old(buffer)@.len(), |i: int| 0u16),
{
    buffer.as_mut_slice().zeroize();
}

/// Bytes that are overwritten with zeros when they go out of scope.
#[verifier::external_body]
pub struct ZeroizingBytes {
    inner: zeroize::Zeroizing<Vec<u8>>,
}

/// The bytes that a [`ZeroizingBytes`] holds.
pub uninterp spec fn zeroizing_contents(bytes: ZeroizingBytes) -> Seq<u8>;

/// Calls `zeroize::Zeroizing::new`, which takes the bytes over as they are.
#[verifier::external_body]
fn zeroizing_new(bytes: Vec<u8>) -> (res: ZeroizingBytes)
    ensures
        zeroizing_contents(res) == bytes@,
{
    ZeroizingBytes { inner: zeroize::Zeroizing::new(bytes) }
}

/// Calls `Deref::deref` of `zeroize::Zeroizing`, which gives the bytes held.
#[verifier::external_body]
fn zeroizing_as_slice(bytes: &ZeroizingBytes) -> (res: &[u8])
    ensures
        res@ == zeroizing_contents(*bytes),
{
    bytes.inner.as_slice()
}

impl View for ZeroizingBytes {
    type V = Seq<u8>;

    open spec fn view(&self) -> Seq<u8> {
        zeroizing_contents(*self)
    }
}

impl ZeroizingBytes {
    /// Takes bytes over; they are scrubbed when the value goes out of scope.
    pub fn new(bytes: Vec<u8>) -> (res: Self)
        ensures
            res@ == bytes@,
    {
        zeroizing_new(bytes)
    }

    /// The bytes held.
    pub fn as_slice(&self) -> (res: &[u8])
        ensures
            res@ == self@,
    {
        zeroizing_as_slice(self)
    }
}

} // verus!
