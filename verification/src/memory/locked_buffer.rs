//! Buffers that several owners of one registry share, and their common wiping
//! at shutdown.

use crate::error::{is_memory_error, memory_error, Error};
use crate::memory::secure_buffer::{
    copy_prefix, wiped, zeros, BufferState, SecureBuffer, DESTROYED, FROZEN, NO_RANDOM_BYTES,
    SIZE_TOO_LARGE,
};
use crate::outside::{delivered, ZeroizingBytes};
use crate::text::{concat3, decimal, decimal_exec};
use vstd::prelude::*;
use vstd::slice::slice_to_vec;

verus! {

/// Says that the numbers for buffers have run out.
pub const NO_HANDLES: &'static str = "LockedBuffer: handles exhausted";

/// A live buffer and the number it is registered under.
struct RegistryEntry {
    id: usize,
    buffer: SecureBuffer,
}

/// All live [`LockedBuffer`]s, for centralized cleanup at shutdown.
pub struct BufferRegistry {
    entries: Vec<RegistryEntry>,
    next_id: usize,
}

/// A handle to a buffer in a [`BufferRegistry`].
pub struct LockedBuffer {
    id: usize,
}

spec fn registered_at(entries: Seq<RegistryEntry>, id: usize, i: int) -> bool {
    0 <= i < entries.len() && entries[i].id == id
}

spec fn entries_view(entries: Seq<RegistryEntry>) -> Map<usize, BufferState> {
    Map::new(
        |id: usize| exists|i: int| registered_at(entries, id, i),
        |id: usize| entries[choose|i: int| registered_at(entries, id, i)].buffer@,
    )
}

spec fn ids_distinct(entries: Seq<RegistryEntry>) -> bool {
    forall|i: int, j: int|
        0 <= i < entries.len() && 0 <= j < entries.len() && i != j ==> #[trigger] entries[i].id
            != #[trigger] entries[j].id
}

proof fn lemma_entry_view(entries: Seq<RegistryEntry>, i: int)
    requires
        ids_distinct(entries),
        0 <= i < entries.len(),
    ensures
        entries_view(entries).dom().contains(entries[i].id),
        entries_view(entries)[entries[i].id] == entries[i].buffer@,
{
    assert(registered_at(entries, entries[i].id, i));
}

proof fn lemma_update_view(before: Seq<RegistryEntry>, after: Seq<RegistryEntry>, i: int)
    requires
        ids_distinct(before),
        0 <= i < before.len(),
        after.len() == before.len(),
        after[i].id == before[i].id,
        forall|j: int| 0 <= j < before.len() && j != i ==> after[j] == before[j],
    ensures
        ids_distinct(after),
        entries_view(after) == entries_view(before).insert(before[i].id, after[i].buffer@),
{
    let id = before[i].id;
    assert forall|j: int| 0 <= j < after.len() implies #[trigger] after[j].id == before[j].id by {}
    let expected = entries_view(before).insert(id, after[i].buffer@);
    assert forall|k: usize| entries_view(after).dom().contains(k) <==> expected.dom().contains(k) by {
        if exists|j: int| registered_at(after, k, j) {
            let j = choose|j: int| registered_at(after, k, j);
            assert(registered_at(before, k, j));
        }
        if exists|j: int| registered_at(before, k, j) {
            let j = choose|j: int| registered_at(before, k, j);
            assert(registered_at(after, k, j));
        }
        assert(registered_at(after, id, i));
    }
    assert forall|k: usize| #[trigger] entries_view(after).dom().contains(k) implies entries_view(
        after,
    )[k] == expected[k] by {
        let j = choose|j: int| registered_at(after, k, j);
        lemma_entry_view(after, j);
        lemma_entry_view(before, j);
    }
    assert(entries_view(after) =~= expected);
}

impl View for BufferRegistry {
    type V = Map<usize, BufferState>;

    closed spec fn view(&self) -> Map<usize, BufferState> {
        entries_view(self.entries@)
    }
}

impl View for LockedBuffer {
    type V = usize;

    closed spec fn view(&self) -> usize {
        self.id
    }
}

impl BufferRegistry {
    /// The number that the next buffer gets.
    pub closed spec fn next_id(&self) -> usize {
        self.next_id
    }

    /// No number is used twice, and all are below the next one.
    pub closed spec fn wf(&self) -> bool {
        &&& ids_distinct(self.entries@)
        &&& forall|i: int| 0 <= i < self.entries@.len() ==> #[trigger] self.entries@[i].id < self.next_id
    }

    /// An empty registry; numbers start at one.
    pub fn new() -> (registry: Self)
        ensures
            registry.wf(),
            registry@ == Map::<usize, BufferState>::empty(),
            registry.next_id() == 1,
    {
        let registry = BufferRegistry { entries: Vec::new(), next_id: 1 };
        assert(registry@ =~= Map::<usize, BufferState>::empty());
        registry
    }

    /// Where the buffer with this number stands.
    fn position(&self, id: usize) -> (i: usize)
        requires
            self.wf(),
            self@.dom().contains(id),
        ensures
            i < self.entries@.len(),
            self.entries@[i as int].id == id,
            self@[id] == self.entries@[i as int].buffer@,
    {
        let count: usize = self.entries.len();
        let mut i: usize = 0;
        let ghost place = choose|j: int| registered_at(self.entries@, id, j);
        while self.entries[i].id != id
            invariant
                count == self.entries@.len(),
                i < count,
                registered_at(self.entries@, id, place),
                i <= place,
            decreases count - i,
        {
            i += 1;
        }
        proof {
            lemma_entry_view(self.entries@, i as int);
        }
        i
    }

    /// Files a buffer under a number.
    fn register(&mut self, id: usize, buffer: SecureBuffer)
        requires
            old(self).wf(),
            id < old(self).next_id(),
            !old(self)@.dom().contains(id),
        ensures
            final(self).wf(),
            final(self)@ == old(self)@.insert(id, buffer@),
            final(self).next_id() == old(self).next_id(),
    {
        let ghost before = self.entries@;
        self.entries.push(RegistryEntry { id, buffer });
        proof {
            let after = self.entries@;
            let n = before.len() as int;
            assert forall|j: int| 0 <= j < n implies #[trigger] before[j].id != id by {
                assert(registered_at(before, before[j].id, j));
            }
            assert(ids_distinct(after));
            let expected = entries_view(before).insert(id, buffer@);
            assert forall|k: usize|
                entries_view(after).dom().contains(k) <==> expected.dom().contains(k) by {
                if exists|j: int| registered_at(after, k, j) {
                    let j = choose|j: int| registered_at(after, k, j);
                    assert(j < n ==> registered_at(before, k, j));
                }
                if exists|j: int| registered_at(before, k, j) {
                    let j = choose|j: int| registered_at(before, k, j);
                    assert(registered_at(after, k, j));
                }
                assert(registered_at(after, id, n));
            }
            assert forall|k: usize| #[trigger]
                entries_view(after).dom().contains(k) implies entries_view(after)[k]
                == expected[k] by {
                let j = choose|j: int| registered_at(after, k, j);
                lemma_entry_view(after, j);
                if j < n {
                    lemma_entry_view(before, j);
                }
            }
            assert(self@ =~= expected);
        }
    }

    /// Takes the buffer with this number out.
    fn unregister(&mut self, id: usize) -> (buffer: SecureBuffer)
        requires
            old(self).wf(),
            old(self)@.dom().contains(id),
        ensures
            final(self).wf(),
            final(self)@ == old(self)@.remove(id),
            final(self).next_id() == old(self).next_id(),
            buffer@ == old(self)@[id],
    {
        let i: usize = self.position(id);
        let ghost before = self.entries@;
        let entry: RegistryEntry = self.entries.remove(i);
        proof {
            let after = self.entries@;
            assert forall|j: int| 0 <= j < after.len() implies #[trigger] after[j] == before[if j < i {
                j
            } else {
                j + 1
            }] by {}
            assert(ids_distinct(after));
            let expected = entries_view(before).remove(id);
            assert forall|k: usize|
                entries_view(after).dom().contains(k) <==> expected.dom().contains(k) by {
                if exists|j: int| registered_at(after, k, j) {
                    let j = choose|j: int| registered_at(after, k, j);
                    let j0 = if j < i { j } else { j + 1 };
                    assert(after[j] == before[j0]);
                    assert(registered_at(before, k, j0));
                }
                if k != id && exists|j: int| registered_at(before, k, j) {
                    let j = choose|j: int| registered_at(before, k, j);
                    let j1 = if j < i { j } else { j - 1 };
                    assert(after[j1] == before[j]);
                    assert(registered_at(after, k, j1));
                }
            }
            assert forall|k: usize| #[trigger]
                entries_view(after).dom().contains(k) implies entries_view(after)[k]
                == expected[k] by {
                let j = choose|j: int| registered_at(after, k, j);
                let j0 = if j < i { j } else { j + 1 };
                assert(after[j] == before[j0]);
                lemma_entry_view(after, j);
                lemma_entry_view(before, j0);
            }
            assert(self@ =~= expected);
        }
        entry.buffer
    }
}

/// Zeroizes the contents of all registered buffers.
///
/// **Call only at process shutdown.** Whoever still holds a handle reads zeros
/// afterwards. The buffers are not destroyed: they stay live, melted and zeroed
/// until they are closed. A buffer that was destroyed before stays as it is.
pub fn zeroize_all_registered_at_shutdown(registry: &mut BufferRegistry)
    requires
        old(registry).wf(),
    ensures
        final(registry).wf(),
        final(registry).next_id() == old(registry).next_id(),
        final(registry)@.dom() == old(registry)@.dom(),
        forall|id: usize| #[trigger]
            old(registry)@.dom().contains(id) ==> final(registry)@[id] == wiped(old(registry)@[id]),
{
    let count: usize = registry.entries.len();
    let ghost before = registry.entries@;
    let mut i: usize = 0;
    while i < count
        invariant
            count == registry.entries@.len(),
            count == before.len(),
            i <= count,
            registry.next_id == old(registry).next_id,
            before == old(registry).entries@,
            ids_distinct(before),
            forall|j: int| 0 <= j < count ==> #[trigger] registry.entries@[j].id == before[j].id,
            forall|j: int|
                0 <= j < i ==> #[trigger] registry.entries@[j].buffer@ == wiped(before[j].buffer@),
            forall|j: int| i <= j < count ==> #[trigger] registry.entries@[j] == before[j],
        decreases count - i,
    {
        registry.entries[i].buffer.wipe();
        i += 1;
    }
    proof {
        let after = registry.entries@;
        assert(ids_distinct(after));
        assert forall|k: usize|
            entries_view(after).dom().contains(k) <==> entries_view(before).dom().contains(k) by {
            if exists|j: int| registered_at(after, k, j) {
                let j = choose|j: int| registered_at(after, k, j);
                assert(registered_at(before, k, j));
            }
            if exists|j: int| registered_at(before, k, j) {
                let j = choose|j: int| registered_at(before, k, j);
                assert(registered_at(after, k, j));
            }
        }
        assert(registry@.dom() =~= old(registry)@.dom());
        assert forall|id: usize| #[trigger] old(registry)@.dom().contains(id) implies registry@[id]
            == wiped(old(registry)@[id]) by {
            let j = choose|j: int| registered_at(before, id, j);
            lemma_entry_view(before, j);
            lemma_entry_view(after, j);
        }
    }
}

/// The text that stands for a handle in logs: its number and nothing else.
pub open spec fn handle_text(id: usize) -> Seq<char> {
    "LockedBuffer { id: "@ + decimal(id as nat) + " }"@
}

impl LockedBuffer {
    /// Registers a buffer under the next number and hands out its handle. Fails
    /// once the numbers run out.
    fn from_buffer(buffer: SecureBuffer, registry: &mut BufferRegistry) -> (res: Result<Self, Error>)
        requires
            old(registry).wf(),
        ensures
            final(registry).wf(),
            res is Ok <==> old(registry).next_id() < usize::MAX,
            res matches Ok(handle) ==> {
                &&& handle@ == old(registry).next_id()
                &&& !old(registry)@.dom().contains(handle@)
                &&& final(registry).next_id() == old(registry).next_id() + 1
                &&& final(registry)@ == old(registry)@.insert(handle@, buffer@)
            },
            res matches Err(e) ==> {
                &&& is_memory_error(e, NO_HANDLES@)
                &&& final(registry)@ == old(registry)@
                &&& final(registry).next_id() == old(registry).next_id()
            },
    {
        let id: usize = registry.next_id;
        if id == usize::MAX {
            return Err(memory_error(NO_HANDLES));
        }
        registry.next_id = id + 1;
        proof {
            let entries = registry.entries@;
            if exists|j: int| registered_at(entries, id, j) {
                let j = choose|j: int| registered_at(entries, id, j);
                assert(entries[j].id < old(registry).next_id);
            }
        }
        registry.register(id, buffer);
        Ok(LockedBuffer { id })
    }

    /// Allocates a new zeroed buffer.
    pub fn new(size: usize, registry: &mut BufferRegistry) -> (res: Result<Self, Error>)
        requires
            old(registry).wf(),
        ensures
            final(registry).wf(),
            res is Ok <==> size <= isize::MAX && old(registry).next_id() < usize::MAX,
            res matches Ok(handle) ==> {
                &&& handle@ == old(registry).next_id()
                &&& !old(registry)@.dom().contains(handle@)
                &&& final(registry).next_id() == old(registry).next_id() + 1
                &&& final(registry)@ == old(registry)@.insert(
                    handle@,
                    BufferState { bytes: zeros(size as nat), frozen: false, alive: true },
                )
            },
            res matches Err(e) ==> {
                &&& is_memory_error(
                    e,
                    if size > isize::MAX {
                        SIZE_TOO_LARGE@
                    } else {
                        NO_HANDLES@
                    },
                )
                &&& final(registry)@ == old(registry)@
                &&& final(registry).next_id() == old(registry).next_id()
            },
    {
        match SecureBuffer::new(size) {
            Ok(buffer) => Self::from_buffer(buffer, registry),
            Err(e) => Err(e),
        }
    }

    /// Allocates a buffer filled with random bytes of the operating system.
    pub fn random(size: usize, registry: &mut BufferRegistry) -> (res: Result<Self, Error>)
        requires
            old(registry).wf(),
        ensures
            final(registry).wf(),
            res matches Ok(handle) ==> {
                &&& size <= isize::MAX
                &&& handle@ == old(registry).next_id()
                &&& !old(registry)@.dom().contains(handle@)
                &&& final(registry).next_id() == old(registry).next_id() + 1
                &&& final(registry)@.dom() == old(registry)@.dom().insert(handle@)
                &&& final(registry)@ == old(registry)@.insert(handle@, final(registry)@[handle@])
                &&& final(registry)@[handle@].bytes.len() == size
                &&& delivered(final(registry)@[handle@].bytes)
                &&& final(registry)@[handle@].alive
                &&& !final(registry)@[handle@].frozen
            },
            res matches Err(e) ==> {
                &&& if size > isize::MAX {
                    is_memory_error(e, SIZE_TOO_LARGE@)
                } else {
                    ||| is_memory_error(e, NO_RANDOM_BYTES@)
                    ||| old(registry).next_id() == usize::MAX && is_memory_error(
                        e,
                        NO_HANDLES@,
                    )
                }
                &&& final(registry)@ == old(registry)@
                &&& final(registry).next_id() == old(registry).next_id()
            },
            size > isize::MAX || old(registry).next_id() == usize::MAX ==> res is Err,
    {
        let mut buffer: SecureBuffer = match SecureBuffer::new(size) {
            Ok(buffer) => buffer,
            Err(e) => {
                return Err(e);
            },
        };
        match buffer.scramble() {
            Ok(()) => Self::from_buffer(buffer, registry),
            Err(e) => Err(e),
        }
    }

    /// Creates a buffer with a copy of the given bytes.
    pub fn from_bytes(bytes: &[u8], registry: &mut BufferRegistry) -> (res: Result<Self, Error>)
        requires
            old(registry).wf(),
        ensures
            final(registry).wf(),
            res is Ok <==> bytes@.len() <= isize::MAX && old(registry).next_id() < usize::MAX,
            res matches Ok(handle) ==> {
                &&& handle@ == old(registry).next_id()
                &&& !old(registry)@.dom().contains(handle@)
                &&& final(registry).next_id() == old(registry).next_id() + 1
                &&& final(registry)@ == old(registry)@.insert(
                    handle@,
                    BufferState { bytes: bytes@, frozen: false, alive: true },
                )
            },
            res matches Err(e) ==> {
                &&& is_memory_error(
                    e,
                    if bytes@.len() > isize::MAX {
                        SIZE_TOO_LARGE@
                    } else {
                        NO_HANDLES@
                    },
                )
                &&& final(registry)@ == old(registry)@
                &&& final(registry).next_id() == old(registry).next_id()
            },
    {
        let mut buffer: SecureBuffer = match SecureBuffer::new(bytes.len()) {
            Ok(buffer) => buffer,
            Err(e) => {
                return Err(e);
            },
        };
        copy_prefix(buffer.bytes(), bytes);
        assert(buffer@.bytes =~= bytes@);
        Self::from_buffer(buffer, registry)
    }

    /// Makes the buffer read-only. Fails exactly on a destroyed buffer.
    pub fn freeze(&self, registry: &mut BufferRegistry) -> (res: Result<(), Error>)
        requires
            old(registry).wf(),
            old(registry)@.dom().contains(self@),
        ensures
            final(registry).wf(),
            final(registry).next_id() == old(registry).next_id(),
            res is Ok <==> old(registry)@[self@].alive,
            res is Ok ==> final(registry)@ == old(registry)@.insert(
                self@,
                BufferState { frozen: true, ..old(registry)@[self@] },
            ),
            res matches Err(e) ==> is_memory_error(e, DESTROYED@)
                && final(registry)@ == old(registry)@,
    {
        let i: usize = registry.position(self.id);
        let ghost before = registry.entries@;
        let res: Result<(), Error> = registry.entries[i].buffer.freeze();
        proof {
            lemma_update_view(before, registry.entries@, i as int);
            assert(registry@ =~= old(registry)@.insert(self@, registry.entries@[i as int].buffer@));
        }
        res
    }

    /// Makes the buffer writable. Fails exactly on a destroyed buffer.
    pub fn melt(&self, registry: &mut BufferRegistry) -> (res: Result<(), Error>)
        requires
            old(registry).wf(),
            old(registry)@.dom().contains(self@),
        ensures
            final(registry).wf(),
            final(registry).next_id() == old(registry).next_id(),
            res is Ok <==> old(registry)@[self@].alive,
            res is Ok ==> final(registry)@ == old(registry)@.insert(
                self@,
                BufferState { frozen: false, ..old(registry)@[self@] },
            ),
            res matches Err(e) ==> is_memory_error(e, DESTROYED@)
                && final(registry)@ == old(registry)@,
    {
        let i: usize = registry.position(self.id);
        let ghost before = registry.entries@;
        let res: Result<(), Error> = registry.entries[i].buffer.melt();
        proof {
            lemma_update_view(before, registry.entries@, i as int);
            assert(registry@ =~= old(registry)@.insert(self@, registry.entries@[i as int].buffer@));
        }
        res
    }

    /// Fills the buffer with random bytes of the operating system. A destroyed
    /// or frozen buffer is refused and stays as it is.
    pub fn scramble(&self, registry: &mut BufferRegistry) -> (res: Result<(), Error>)
        requires
            old(registry).wf(),
            old(registry)@.dom().contains(self@),
        ensures
            final(registry).wf(),
            final(registry).next_id() == old(registry).next_id(),
            final(registry)@ == old(registry)@.insert(self@, final(registry)@[self@]),
            final(registry)@[self@] == (BufferState {
                bytes: final(registry)@[self@].bytes,
                ..old(registry)@[self@]
            }),
            final(registry)@[self@].bytes.len() == old(registry)@[self@].bytes.len(),
            res is Ok ==> delivered(final(registry)@[self@].bytes),
            ({
                let buffer = old(registry)@[self@];
                &&& !buffer.alive || buffer.frozen ==> final(registry)@ == old(registry)@
                &&& !buffer.alive ==> (res matches Err(e) && is_memory_error(
                    e,
                    DESTROYED@,
                ))
                &&& buffer.alive && buffer.frozen ==> (res matches Err(e) && is_memory_error(
                    e,
                    FROZEN@,
                ))
                &&& buffer.alive && !buffer.frozen ==> (res matches Err(e) ==> is_memory_error(
                    e,
                    NO_RANDOM_BYTES@,
                ))
            }),
    {
        let i: usize = registry.position(self.id);
        let ghost before = registry.entries@;
        let res: Result<(), Error> = registry.entries[i].buffer.scramble();
        proof {
            lemma_update_view(before, registry.entries@, i as int);
            assert(registry@ =~= old(registry)@.insert(self@, registry.entries@[i as int].buffer@));
            assert(old(registry)@.insert(self@, old(registry)@[self@]) =~= old(registry)@);
        }
        res
    }

    /// Overwrites the contents with zeros, whether frozen or not; the buffer is
    /// melted afterwards.
    pub fn wipe(&self, registry: &mut BufferRegistry)
        requires
            old(registry).wf(),
            old(registry)@.dom().contains(self@),
        ensures
            final(registry).wf(),
            final(registry).next_id() == old(registry).next_id(),
            final(registry)@ == old(registry)@.insert(self@, wiped(old(registry)@[self@])),
    {
        let i: usize = registry.position(self.id);
        let ghost before = registry.entries@;
        registry.entries[i].buffer.wipe();
        proof {
            lemma_update_view(before, registry.entries@, i as int);
        }
    }

    /// Copies the contents into bytes that are scrubbed when they go out of
    /// scope.
    pub fn bytes_zeroizing(&self, registry: &BufferRegistry) -> (bytes: ZeroizingBytes)
        requires
            registry.wf(),
            registry@.dom().contains(self@),
        ensures
            bytes@ == registry@[self@].bytes,
    {
        let i: usize = registry.position(self.id);
        ZeroizingBytes::new(slice_to_vec(registry.entries[i].buffer.as_slice()))
    }

    /// The number of bytes.
    pub fn size(&self, registry: &BufferRegistry) -> (size: usize)
        requires
            registry.wf(),
            registry@.dom().contains(self@),
        ensures
            size == registry@[self@].bytes.len(),
    {
        let i: usize = registry.position(self.id);
        registry.entries[i].buffer.size()
    }

    /// Whether the buffer still exists.
    pub fn is_alive(&self, registry: &BufferRegistry) -> (alive: bool)
        requires
            registry.wf(),
            registry@.dom().contains(self@),
        ensures
            alive == registry@[self@].alive,
    {
        let i: usize = registry.position(self.id);
        registry.entries[i].buffer.is_alive()
    }

    /// Overwrites the contents with a copy of `bytes`; the buffer has to exist
    /// and be melted, and `bytes` has to be as long as the buffer.
    pub fn write(&self, bytes: &[u8], registry: &mut BufferRegistry)
        requires
            old(registry).wf(),
            old(registry)@.dom().contains(self@),
            old(registry)@[self@].alive,
            !old(registry)@[self@].frozen,
            old(registry)@[self@].bytes.len() == bytes@.len(),
        ensures
            final(registry).wf(),
            final(registry).next_id() == old(registry).next_id(),
            final(registry)@ == old(registry)@.insert(
                self@,
                BufferState { bytes: bytes@, ..old(registry)@[self@] },
            ),
    {
        let i: usize = registry.position(self.id);
        let ghost before = registry.entries@;
        copy_prefix(registry.entries[i].buffer.bytes(), bytes);
        proof {
            lemma_update_view(before, registry.entries@, i as int);
            assert(registry.entries@[i as int].buffer@.bytes =~= bytes@);
        }
    }

    /// Gives the handle up: the buffer leaves the registry and is wiped. What is
    /// left of it is returned.
    pub fn close(self, registry: &mut BufferRegistry) -> (remains: SecureBuffer)
        requires
            old(registry).wf(),
            old(registry)@.dom().contains(self@),
        ensures
            final(registry).wf(),
            final(registry).next_id() == old(registry).next_id(),
            final(registry)@ == old(registry)@.remove(self@),
            remains@ == wiped(old(registry)@[self@]),
    {
        let mut buffer: SecureBuffer = registry.unregister(self.id);
        buffer.wipe();
        buffer
    }

    /// The text that stands for the handle in logs.
    pub fn debug_text(&self) -> (text: String)
        ensures
            text@ == handle_text(self@),
    {
        let number: String = decimal_exec(self.id as u64);
        concat3("LockedBuffer { id: ", number.as_str(), " }")
    }
}

/// The log text of a handle is made of its number alone.
pub proof fn log_text_is_the_number(id: usize)
    ensures
        handle_text(id) == ("LockedBuffer { id: "@ + decimal(id as nat)).push(' ').push('}'),
{
    reveal_strlit(" }");
    assert(handle_text(id) =~= ("LockedBuffer { id: "@ + decimal(id as nat)).push(' ').push('}'));
}

} // verus!
