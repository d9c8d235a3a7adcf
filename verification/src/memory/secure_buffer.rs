//! A buffer for a secret, with its page protection as plain state.

use crate::error::{is_memory_error, memory_error, Error};
use crate::outside::{delivered, random_fill, zeroize_bytes};
use vstd::prelude::*;

verus! {

/// What a [`SecureBuffer`] is: its contents, whether they are write-protected,
/// and whether the buffer still exists.
pub struct BufferState {
    pub bytes: Seq<u8>,
    pub frozen: bool,
    pub alive: bool,
}

/// Says that a buffer is destroyed.
pub const DESTROYED: &'static str = "SecureBuffer: buffer destroyed";

/// Says that a buffer is write-protected.
pub const FROZEN: &'static str = "SecureBuffer: buffer frozen";

/// Says that no random bytes could be had.
pub const NO_RANDOM_BYTES: &'static str = "SecureBuffer: random number generator failed";

/// Says that more was asked for than an allocation can have.
pub const SIZE_TOO_LARGE: &'static str = "SecureBuffer: size too large";

/// `len` zero bytes.
pub open spec fn zeros(len: nat) -> Seq<u8> {
    Seq::new(len, |i: int| 0u8)
}

/// A buffer after its contents are overwritten with zeros: write protection is
/// lifted first, and a buffer that no longer exists stays as it is.
pub open spec fn wiped(buffer: BufferState) -> BufferState {
    if buffer.alive {
        BufferState { bytes: zeros(buffer.bytes.len()), frozen: false, alive: true }
    } else {
        buffer
    }
}

/// A buffer of fixed size for a secret.
///
/// A frozen buffer can be read and not written, a melted one both. Once
/// destroyed it holds nothing and can be neither frozen nor melted.
pub struct SecureBuffer {
    data: Vec<u8>,
    frozen: bool,
    alive: bool,
}

impl View for SecureBuffer {
    type V = BufferState;

    closed spec fn view(&self) -> BufferState {
        BufferState { bytes: self.data@, frozen: self.frozen, alive: self.alive }
    }
}

impl SecureBuffer {
    /// Allocates a zeroed, melted buffer. Fails where the size exceeds what an
    /// allocation can have.
    pub fn new(size: usize) -> (res: Result<Self, Error>)
        ensures
            res is Ok <==> size <= isize::MAX,
            res matches Ok(buffer) ==> buffer@ == (BufferState {
                bytes: zeros(size as nat),
                frozen: false,
                alive: true,
            }),
            res matches Err(e) ==> is_memory_error(e, SIZE_TOO_LARGE@),
    {
        if size > isize::MAX as usize {
            return Err(memory_error(SIZE_TOO_LARGE));
        }
        let data: Vec<u8> = vec![0u8; size];
        assert(data@ =~= zeros(size as nat));
        Ok(SecureBuffer { data, frozen: false, alive: true })
    }

    /// Makes the buffer read-only. Fails exactly on a destroyed buffer.
    pub fn freeze(&mut self) -> (res: Result<(), Error>)
        ensures
            res is Ok <==> old(self)@.alive,
            res is Ok ==> final(self)@ == (BufferState { frozen: true, ..old(self)@ }),
            res matches Err(e) ==> is_memory_error(e, DESTROYED@)
                && final(self)@ == old(self)@,
    {
        if !self.alive {
            return Err(memory_error(DESTROYED));
        }
        self.frozen = true;
        Ok(())
    }

    /// Makes the buffer writable. Fails exactly on a destroyed buffer.
    pub fn melt(&mut self) -> (res: Result<(), Error>)
        ensures
            res is Ok <==> old(self)@.alive,
            res is Ok ==> final(self)@ == (BufferState { frozen: false, ..old(self)@ }),
            res matches Err(e) ==> is_memory_error(e, DESTROYED@)
                && final(self)@ == old(self)@,
    {
        if !self.alive {
            return Err(memory_error(DESTROYED));
        }
        self.frozen = false;
        Ok(())
    }

    /// Fills the buffer with random bytes of the operating system. A destroyed
    /// or frozen buffer is refused and stays as it is; otherwise the outcome is
    /// that of the generator, and where it delivers, every byte of the buffer is
    /// one that it delivered.
    pub fn scramble(&mut self) -> (res: Result<(), Error>)
        ensures
            final(self)@ == (BufferState { bytes: final(self)@.bytes, ..old(self)@ }),
            final(self)@.bytes.len() == old(self)@.bytes.len(),
            !old(self)@.alive ==> (res matches Err(e) && is_memory_error(
                e,
                DESTROYED@,
            )),
            old(self)@.alive && old(self)@.frozen ==> (res matches Err(e) && is_memory_error(
                e,
                FROZEN@,
            )),
            !old(self)@.alive || old(self)@.frozen ==> final(self)@ == old(self)@,
            res is Ok ==> delivered(final(self)@.bytes),
            old(self)@.alive && !old(self)@.frozen ==> (res matches Err(e) ==> is_memory_error(
                e,
                NO_RANDOM_BYTES@,
            )),
    {
        if !self.alive {
            return Err(memory_error(DESTROYED));
        }
        if self.frozen {
            return Err(memory_error(FROZEN));
        }
        let mut data: Vec<u8> = Vec::new();
        std::mem::swap(&mut data, &mut self.data);
        let (filled, res) = random_fill(data);
        self.data = filled;
        match res {
            Ok(()) => Ok(()),
            Err(_) => Err(memory_error(NO_RANDOM_BYTES)),
        }
    }

    /// Whether the buffer still exists.
    pub fn is_alive(&self) -> (alive: bool)
        ensures
            alive == self@.alive,
    {
        self.alive
    }

    /// Whether the buffer is read-only.
    pub fn is_frozen(&self) -> (frozen: bool)
        ensures
            frozen == self@.frozen,
    {
        self.frozen
    }

    /// The number of bytes.
    pub fn size(&self) -> (size: usize)
        ensures
            size == self@.bytes.len(),
    {
        self.data.len()
    }

    /// The contents.
    pub fn as_slice(&self) -> (bytes: &[u8])
        ensures
            bytes@ == self@.bytes,
    {
        self.data.as_slice()
    }

    /// The contents for writing; the buffer has to exist and be melted.
    pub fn bytes(&mut self) -> (bytes: &mut [u8])
        requires
            old(self)@.alive,
            !old(self)@.frozen,
        ensures
            bytes@ == old(self)@.bytes,
            final(self)@ == (BufferState { bytes: final(bytes)@, ..old(self)@ }),
    {
        self.data.as_mut_slice()
    }

    /// Overwrites the contents with zeros, whether frozen or not.
    pub fn wipe(&mut self)
        ensures
            final(self)@ == wiped(old(self)@),
    {
        let _ = self.melt();
        if self.alive {
            zeroize_bytes(&mut self.data);
        }
        assert(self@.bytes =~= wiped(old(self)@).bytes);
    }

    /// Overwrites the contents with zeros and gives the memory back.
    pub fn destroy(&mut self)
        ensures
            final(self)@ == (BufferState { bytes: Seq::empty(), frozen: false, alive: false }),
    {
        zeroize_bytes(&mut self.data);
        self.data.clear();
        self.frozen = false;
        self.alive = false;
    }
}

/// Writes `source` over the first bytes of `target`.
pub(crate) fn copy_prefix(target: &mut [u8], source: &[u8])
    requires
        source@.len() <= old(target)@.len(),
    ensures
        final(target)@ == source@ + old(target)@.skip(source@.len() as int),
{
    let ghost before = target@;
    let mut i: usize = 0;
    while i < source.len()
        invariant
            i <= source@.len() <= before.len(),
            target@ == source@.take(i as int) + before.skip(i as int),
        decreases source@.len() - i,
    {
        target[i] = source[i];
        i += 1;
        assert(target@ =~= source@.take(i as int) + before.skip(i as int));
    }
    assert(source@.take(i as int) =~= source@);
}

/// A wiped buffer reads zeros only, keeps its size and can be written.
pub proof fn wiped_buffer_reads_zeros(buffer: BufferState)
    requires
        buffer.alive,
    ensures
        wiped(buffer).bytes.len() == buffer.bytes.len(),
        forall|i: int| 0 <= i < buffer.bytes.len() ==> #[trigger] wiped(buffer).bytes[i] == 0u8,
        wiped(buffer).alive,
        !wiped(buffer).frozen,
{
}

/// A destroyed buffer is left as it is by wiping.
pub proof fn wiping_leaves_destroyed_buffer(buffer: BufferState)
    requires
        !buffer.alive,
    ensures
        wiped(buffer) == buffer,
{
}

/// Zero bytes are as many as asked for, and zero.
pub proof fn zeros_are_zero(len: nat)
    ensures
        zeros(len).len() == len,
        forall|i: int| 0 <= i < len ==> #[trigger] zeros(len)[i] == 0u8,
{
}

/// Wiping twice is wiping once.
pub proof fn wiping_is_idempotent(buffer: BufferState)
    ensures
        wiped(wiped(buffer)) == wiped(buffer),
{
}

} // verus!
