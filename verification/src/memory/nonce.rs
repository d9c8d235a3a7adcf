//! Nonces that do not repeat within a process: a random prefix and a counter.

use crate::bytes::{le_bytes64, le_bytes64_are_digits, le_bytes64_injective, push_le_bytes64};
use crate::error::{is_memory_error, memory_error, Error};
use crate::outside::{delivered, random_fill, NONCE_LEN};
use vstd::prelude::*;
use vstd::slice::slice_to_vec;

verus! {

/// Length of the random part of a nonce in bytes.
pub const PREFIX_LEN: usize = 4;

/// Says that no prefix could be had.
pub const NO_PREFIX: &'static str =
    "MemoryEnclave: OsRng failed to generate nonce prefix — cannot safely seal secrets without a random nonce. This indicates a system-level RNG failure.";

/// What a [`NonceSource`] is: the random part of its nonces and the count of
/// those given out.
pub struct NonceState {
    pub prefix: Seq<u8>,
    pub counter: u64,
}

/// The nonce that comes next: the prefix and the counter in little-endian bytes.
pub open spec fn nonce_of(nonces: NonceState) -> Seq<u8> {
    nonces.prefix + le_bytes64(nonces.counter)
}

/// The source after a nonce is given out; the counter starts over after its
/// largest value.
pub open spec fn after_nonce(nonces: NonceState) -> NonceState {
    NonceState { counter: successor(nonces.counter), ..nonces }
}

/// The next 64-bit number, zero after the largest one.
pub open spec fn successor(n: u64) -> u64 {
    if n == u64::MAX {
        0
    } else {
        (n + 1) as u64
    }
}

/// A source of nonces: a random prefix, fixed for the life of the source, and a
/// counter.
pub struct NonceSource {
    prefix: Vec<u8>,
    counter: u64,
}

impl View for NonceSource {
    type V = NonceState;

    closed spec fn view(&self) -> NonceState {
        NonceState { prefix: self.prefix@, counter: self.counter }
    }
}

/// Random bytes of the operating system for the prefix of nonces.
fn nonce_prefix() -> (res: Result<Vec<u8>, Error>)
    ensures
        res matches Ok(prefix) ==> prefix@.len() == PREFIX_LEN && delivered(prefix@),
        res matches Err(e) ==> is_memory_error(e, NO_PREFIX@),
{
    let (prefix, res) = random_fill(vec![0u8; PREFIX_LEN]);
    match res {
        Ok(()) => Ok(prefix),
        Err(_) => Err(memory_error(NO_PREFIX)),
    }
}

impl NonceSource {
    /// A source with the given prefix that has given out nothing yet.
    pub fn with_prefix(prefix: [u8; 4]) -> (nonces: Self)
        ensures
            nonces@ == (NonceState { prefix: prefix@, counter: 0 }),
    {
        NonceSource { prefix: slice_to_vec(prefix.as_slice()), counter: 0 }
    }

    /// A source with a random prefix. Fails where the operating system delivers
    /// no random bytes: without them no secret can be sealed safely.
    pub fn new() -> (res: Result<Self, Error>)
        ensures
            res matches Ok(nonces) ==> {
                &&& nonces@.prefix.len() == PREFIX_LEN
                &&& delivered(nonces@.prefix)
                &&& nonces@.counter == 0
            },
            res matches Err(e) ==> is_memory_error(e, NO_PREFIX@),
    {
        match nonce_prefix() {
            Ok(prefix) => Ok(NonceSource { prefix, counter: 0 }),
            Err(e) => Err(e),
        }
    }

    /// Gives the next nonce out.
    pub fn next_nonce(&mut self) -> (nonce: Vec<u8>)
        requires
            old(self)@.prefix.len() == PREFIX_LEN,
        ensures
            nonce@ == nonce_of(old(self)@),
            nonce@.len() == NONCE_LEN,
            final(self)@ == after_nonce(old(self)@),
    {
        let mut nonce: Vec<u8> = slice_to_vec(self.prefix.as_slice());
        push_le_bytes64(&mut nonce, self.counter);
        self.counter = self.counter.wrapping_add(1);
        nonce
    }
}

/// Two sources with the same prefix and different counters give different
/// nonces.
pub proof fn nonces_differ(a: NonceState, b: NonceState)
    requires
        a.prefix.len() == b.prefix.len(),
        a.counter != b.counter,
    ensures
        nonce_of(a) != nonce_of(b),
{
    if nonce_of(a) == nonce_of(b) {
        let n = a.prefix.len() as int;
        assert(nonce_of(a).skip(n) =~= le_bytes64(a.counter));
        assert(nonce_of(b).skip(n) =~= le_bytes64(b.counter));
        le_bytes64_injective(a.counter, b.counter);
    }
}

/// A nonce is the prefix and behind it the counter in eight bytes, the least
/// significant first. The next one has the same prefix and the counter one
/// higher, counting modulo two to the sixty-fourth.
pub proof fn nonce_is_prefix_and_counter(nonces: NonceState)
    requires
        nonces.prefix.len() == 4,
    ensures
        nonce_of(nonces).len() == 12,
        nonce_of(nonces).take(4) == nonces.prefix,
        ({
            let b = nonce_of(nonces).skip(4);
            nonces.counter == b[0] + 0x100 * b[1] + 0x1_0000 * b[2] + 0x100_0000 * b[3] + 0x1_0000_0000
                * b[4] + 0x100_0000_0000 * b[5] + 0x1_0000_0000_0000 * b[6] + 0x100_0000_0000_0000
                * b[7]
        }),
        after_nonce(nonces).prefix == nonces.prefix,
        after_nonce(nonces).counter as int == (nonces.counter + 1) % 0x1_0000_0000_0000_0000,
        successor(nonces.counter) as int == (nonces.counter + 1) % 0x1_0000_0000_0000_0000,
{
    le_bytes64_are_digits(nonces.counter);
    assert(nonce_of(nonces).take(4) =~= nonces.prefix);
    assert(nonce_of(nonces).skip(4) =~= le_bytes64(nonces.counter));
}

} // verus!
