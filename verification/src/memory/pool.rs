//! A pool of small zeroed slots, the coffer with the master key, and a cache of
//! opened secrets that lives in the same slots.

use crate::error::{is_memory_error, memory_error, Error};
use crate::memory::secure_buffer::{copy_prefix, zeros, zeros_are_zero};
use crate::outside::{delivered, random_fill, zeroize_bytes, KEY_LEN};
use vstd::prelude::*;
use vstd::slice::slice_to_vec;

verus! {

/// Size of a slot of the slab in bytes: a master key fits exactly.
pub const SLOT_SIZE: usize = 32;

/// Number of slots of the slab.
pub const SLOT_COUNT: usize = 64;

/// Says that no slot can be had.
pub const NO_SLOT: &'static str = "TieredPool: no slot available";

/// Says that more was asked for than an allocation can have.
pub const TOO_LARGE: &'static str = "TieredPool: size too large";

/// Says that no master key could be generated.
pub const NO_RANDOM_KEY: &'static str = "TieredPool: random number generator failed";

/// Memory handed out by the pool: a slot of the slab, or memory of its own where
/// more is asked for than a slot holds.
pub struct PoolSlot {
    bytes: Vec<u8>,
    slab_index: Option<usize>,
}

impl View for PoolSlot {
    type V = Seq<u8>;

    closed spec fn view(&self) -> Seq<u8> {
        self.bytes@
    }
}

impl PoolSlot {
    /// The slot of the slab that the memory is, if it is one.
    pub closed spec fn slab_index_spec(&self) -> Option<usize> {
        self.slab_index
    }

    /// Memory of the slab has the size of a slot.
    pub open spec fn wf(&self) -> bool {
        self.slab_index_spec() is Some ==> self@.len() == SLOT_SIZE
    }

    /// The slot of the slab that the memory is, if it is one.
    pub fn slab_index(&self) -> (index: Option<usize>)
        ensures
            index == self.slab_index_spec(),
    {
        self.slab_index
    }

    /// The number of bytes.
    pub fn size(&self) -> (size: usize)
        ensures
            size == self@.len(),
    {
        self.bytes.len()
    }

    /// The contents.
    pub fn as_slice(&self) -> (bytes: &[u8])
        ensures
            bytes@ == self@,
    {
        self.bytes.as_slice()
    }

    /// The contents for writing.
    pub fn bytes(&mut self) -> (bytes: &mut [u8])
        ensures
            bytes@ == old(self)@,
            final(self)@ == final(bytes)@,
            final(self).slab_index_spec() == old(self).slab_index_spec(),
    {
        self.bytes.as_mut_slice()
    }
}

/// A secret in the cache: its number, its contents, and the slot of the slab that
/// holds it.
pub struct CachedSecret {
    pub id: u64,
    pub secret: Seq<u8>,
    pub slot: usize,
}

/// What a pool is: the master key, the free slots of the slab, the one to be
/// taken next last, and the cached secrets, least recently used first.
pub struct PoolState {
    pub key: Seq<u8>,
    pub free: Seq<usize>,
    pub hot: Seq<CachedSecret>,
}

/// The secret `id` is cached at place `i`.
pub open spec fn cached_at(pool: PoolState, id: u64, i: int) -> bool {
    0 <= i < pool.hot.len() && pool.hot[i].id == id
}

/// The secret `id` is cached.
pub open spec fn is_cached(pool: PoolState, id: u64) -> bool {
    exists|i: int| cached_at(pool, id, i)
}

/// The master key has its length, cached secrets fit into slots, and no number
/// is cached twice.
pub open spec fn state_wf(pool: PoolState) -> bool {
    &&& pool.key.len() == KEY_LEN
    &&& forall|i: int| 0 <= i < pool.hot.len() ==> #[trigger] pool.hot[i].secret.len()
        <= SLOT_SIZE
    &&& forall|i: int, j: int|
        0 <= i < pool.hot.len() && 0 <= j < pool.hot.len() && i != j ==> #[trigger] pool.hot[i].id
            != #[trigger] pool.hot[j].id
}

/// Where the secret `id` is cached.
pub open spec fn cache_place(pool: PoolState, id: u64) -> int {
    choose|i: int| cached_at(pool, id, i)
}

/// The cached secret `id`.
pub open spec fn cached(pool: PoolState, id: u64) -> Seq<u8> {
    pool.hot[cache_place(pool, id)].secret
}

/// A slot can be had: one is free, or a cached secret can give its slot up.
pub open spec fn slot_available(pool: PoolState) -> bool {
    pool.free.len() > 0 || pool.hot.len() > 0
}

/// A copy of the secret `id` can be handed out without decryption: it is cached
/// and a slot is free.
pub open spec fn served_from_cache(pool: PoolState, id: u64) -> bool {
    is_cached(pool, id) && pool.free.len() > 0
}

/// The slot that is taken next: a free one, otherwise that of the least recently
/// used cached secret.
pub open spec fn next_slot(pool: PoolState) -> usize {
    if pool.free.len() > 0 {
        pool.free.last()
    } else {
        pool.hot[0].slot
    }
}

/// The pool after the next slot is taken.
pub open spec fn take_slot(pool: PoolState) -> PoolState {
    if pool.free.len() > 0 {
        PoolState { free: pool.free.drop_last(), ..pool }
    } else {
        PoolState { hot: pool.hot.drop_first(), ..pool }
    }
}

/// The pool after a slot comes back.
pub open spec fn give_slot(pool: PoolState, slot: usize) -> PoolState {
    PoolState { free: pool.free.push(slot), ..pool }
}

/// The pool after a slot was taken for a moment and came back.
pub open spec fn lend_slot(pool: PoolState) -> PoolState {
    give_slot(take_slot(pool), next_slot(pool))
}

/// The pool after the cached secret `id`, if there is one, leaves the cache.
pub open spec fn evict(pool: PoolState, id: u64) -> PoolState {
    if is_cached(pool, id) {
        let place = cache_place(pool, id);
        PoolState {
            free: pool.free.push(pool.hot[place].slot),
            hot: pool.hot.remove(place),
            ..pool
        }
    } else {
        pool
    }
}

/// The pool after a secret goes into the cache as the most recently used one.
/// One that does not fit into a slot is not cached, nor is one for which no slot
/// can be had.
pub open spec fn insert(pool: PoolState, id: u64, secret: Seq<u8>) -> PoolState {
    if secret.len() > SLOT_SIZE {
        pool
    } else {
        let without = evict(pool, id);
        if slot_available(without) {
            let taken = take_slot(without);
            PoolState {
                hot: taken.hot.push(CachedSecret { id, secret, slot: next_slot(without) }),
                ..taken
            }
        } else {
            without
        }
    }
}

/// The pool after a copy of the cached secret `id` is handed out in the next free
/// slot; the secret is then the most recently used one.
pub open spec fn hand_out(pool: PoolState, id: u64) -> PoolState {
    let place = cache_place(pool, id);
    PoolState {
        free: pool.free.drop_last(),
        hot: pool.hot.remove(place).push(pool.hot[place]),
        ..pool
    }
}

/// `secret` in memory that the pool hands out for it: a slot is filled up with
/// zeros.
pub open spec fn in_slot(secret: Seq<u8>) -> Seq<u8> {
    if secret.len() <= SLOT_SIZE {
        secret + zeros((SLOT_SIZE - secret.len()) as nat)
    } else {
        secret
    }
}

/// A cached secret: its number, the slot that holds it, and its length.
struct HotEntry {
    id: u64,
    slot: PoolSlot,
    len: usize,
}

/// Slots, master key and cache.
pub struct TieredPool {
    key: Vec<u8>,
    free: Vec<PoolSlot>,
    hot: Vec<HotEntry>,
}

spec fn hot_entry_wf(entry: HotEntry) -> bool {
    &&& entry.slot.slab_index is Some
    &&& entry.slot.bytes@.len() == SLOT_SIZE
    &&& entry.len <= SLOT_SIZE
    &&& entry.slot.bytes@ == in_slot(entry.slot.bytes@.take(entry.len as int))
}

spec fn free_slot_wf(slot: PoolSlot) -> bool {
    &&& slot.slab_index is Some
    &&& slot.bytes@ == zeros(SLOT_SIZE as nat)
}

spec fn free_view(free: Seq<PoolSlot>) -> Seq<usize> {
    Seq::new(free.len(), |i: int| free[i].slab_index->0)
}

spec fn hot_view(hot: Seq<HotEntry>) -> Seq<CachedSecret> {
    Seq::new(
        hot.len(),
        |i: int|
            CachedSecret {
                id: hot[i].id,
                secret: hot[i].slot.bytes@.take(hot[i].len as int),
                slot: hot[i].slot.slab_index->0,
            },
    )
}

/// All slots of the slab, the one to be taken first last.
pub open spec fn all_slots() -> Seq<usize> {
    Seq::new(SLOT_COUNT as nat, |i: int| (SLOT_COUNT - 1 - i) as usize)
}

impl View for TieredPool {
    type V = PoolState;

    closed spec fn view(&self) -> PoolState {
        PoolState { key: self.key@, free: free_view(self.free@), hot: hot_view(self.hot@) }
    }
}

impl TieredPool {
    /// Free slots hold zeros only, and cached secrets stand in slots.
    pub closed spec fn slots_wf(&self) -> bool {
        &&& forall|i: int| 0 <= i < self.free@.len() ==> free_slot_wf(#[trigger] self.free@[i])
        &&& forall|i: int| 0 <= i < self.hot@.len() ==> hot_entry_wf(#[trigger] self.hot@[i])
    }

    /// The pool is sound inside and its state is sound.
    pub open spec fn wf(&self) -> bool {
        self.slots_wf() && state_wf(self@)
    }

    /// A pool that holds this master key, all slots free and nothing cached.
    fn holding(key: Vec<u8>) -> (pool: Self)
        requires
            key@.len() == KEY_LEN,
        ensures
            pool.wf(),
            pool@ == (PoolState { key: key@, free: all_slots(), hot: Seq::empty() }),
    {
        let mut free: Vec<PoolSlot> = Vec::new();
        let mut i: usize = 0;
        while i < SLOT_COUNT
            invariant
                i <= SLOT_COUNT,
                free@.len() == i,
                forall|j: int| 0 <= j < i ==> free_slot_wf(#[trigger] free@[j]),
                forall|j: int|
                    0 <= j < i ==> (#[trigger] free@[j]).slab_index == Some(all_slots()[j]),
            decreases SLOT_COUNT - i,
        {
            let bytes: Vec<u8> = vec![0u8; SLOT_SIZE];
            assert(bytes@ =~= zeros(SLOT_SIZE as nat));
            free.push(PoolSlot { bytes, slab_index: Some(SLOT_COUNT - 1 - i) });
            i += 1;
        }
        let pool = TieredPool { key, free, hot: Vec::new() };
        assert(pool@.free =~= all_slots());
        assert(pool@.hot =~= Seq::empty());
        pool
    }

    /// A pool with the given master key, all slots free and nothing cached.
    pub fn with_key(key: [u8; 32]) -> (pool: Self)
        ensures
            pool.wf(),
            pool@ == (PoolState { key: key@, free: all_slots(), hot: Seq::empty() }),
    {
        Self::holding(slice_to_vec(key.as_slice()))
    }

    /// A pool with a random master key of the operating system.
    pub fn new() -> (res: Result<Self, Error>)
        ensures
            res matches Ok(pool) ==> {
                &&& pool.wf()
                &&& pool@.key.len() == KEY_LEN
                &&& delivered(pool@.key)
                &&& pool@ == (PoolState { key: pool@.key, free: all_slots(), hot: Seq::empty() })
            },
            res matches Err(e) ==> is_memory_error(e, NO_RANDOM_KEY@),
    {
        let (key, res) = random_fill(vec![0u8; KEY_LEN]);
        match res {
            Ok(()) => Ok(Self::holding(key)),
            Err(_) => Err(memory_error(NO_RANDOM_KEY)),
        }
    }

    /// Takes a zeroed slot: a free one, otherwise that of the least recently
    /// used cached secret.
    fn take(&mut self) -> (res: Option<PoolSlot>)
        requires
            old(self).wf(),
        ensures
            final(self).wf(),
            res is Some <==> slot_available(old(self)@),
            res matches Some(slot) ==> {
                &&& slot.wf()
                &&& slot.slab_index_spec() == Some(next_slot(old(self)@))
                &&& slot@ == zeros(SLOT_SIZE as nat)
                &&& final(self)@ == take_slot(old(self)@)
            },
            res is None ==> final(self)@ == old(self)@,
    {
        if self.free.len() > 0 {
            let slot: Option<PoolSlot> = self.free.pop();
            assert(self@.hot =~= old(self)@.hot);
            assert(self@.free =~= old(self)@.free.drop_last());
            slot
        } else if self.hot.len() > 0 {
            let ghost before = self.hot@;
            let mut entry: HotEntry = self.hot.remove(0);
            zeroize_bytes(&mut entry.slot.bytes);
            assert(entry.slot.bytes@ =~= zeros(SLOT_SIZE as nat));
            proof {
                assert forall|i: int| 0 <= i < self.hot@.len() implies #[trigger] self.hot@[i]
                    == before[i + 1] by {}
                assert(self@.hot =~= old(self)@.hot.drop_first());
                assert(self@.free =~= old(self)@.free);
            }
            Some(entry.slot)
        } else {
            None
        }
    }

    /// Hands out zeroed memory for `size` bytes: a slot of the slab where that
    /// is enough, otherwise memory of its own.
    pub fn acquire(&mut self, size: usize) -> (res: Result<PoolSlot, Error>)
        requires
            old(self).wf(),
        ensures
            final(self).wf(),
            res is Ok <==> if size <= SLOT_SIZE {
                slot_available(old(self)@)
            } else {
                size <= isize::MAX
            },
            res matches Ok(slot) ==> {
                &&& slot.wf()
                &&& slot.slab_index_spec() == if size <= SLOT_SIZE {
                    Some(next_slot(old(self)@))
                } else {
                    None
                }
                &&& slot@ == in_slot(zeros(size as nat))
                &&& final(self)@ == if size <= SLOT_SIZE {
                    take_slot(old(self)@)
                } else {
                    old(self)@
                }
            },
            res matches Err(e) ==> {
                &&& final(self)@ == old(self)@
                &&& is_memory_error(
                    e,
                    if size <= SLOT_SIZE {
                        NO_SLOT@
                    } else {
                        TOO_LARGE@
                    },
                )
            },
    {
        if size <= SLOT_SIZE {
            match self.take() {
                Some(slot) => {
                    assert(slot@ =~= in_slot(zeros(size as nat)));
                    Ok(slot)
                },
                None => Err(memory_error(NO_SLOT)),
            }
        } else if size <= isize::MAX as usize {
            let bytes: Vec<u8> = vec![0u8; size];
            assert(bytes@ =~= zeros(size as nat));
            Ok(PoolSlot { bytes, slab_index: None })
        } else {
            Err(memory_error(TOO_LARGE))
        }
    }

    /// Takes memory back, overwritten with zeros. A slot of the slab is free again;
    /// memory of its own is not the pool's, and what remains of it is returned.
    pub fn release(&mut self, slot: PoolSlot) -> (remains: Option<PoolSlot>)
        requires
            old(self).wf(),
            slot.wf(),
        ensures
            final(self).wf(),
            slot.slab_index_spec() matches Some(index) ==> {
                &&& remains is None
                &&& final(self)@ == give_slot(old(self)@, index)
            },
            slot.slab_index_spec() is None ==> {
                &&& remains matches Some(memory) && memory@ == zeros(slot@.len())
                &&& final(self)@ == old(self)@
            },
    {
        let mut slot: PoolSlot = slot;
        zeroize_bytes(&mut slot.bytes);
        assert(slot.bytes@ =~= zeros(slot.bytes@.len()));
        if slot.slab_index.is_some() {
            self.free.push(slot);
            assert(self@.hot =~= old(self)@.hot);
            assert(self@.free =~= old(self)@.free.push(slot.slab_index->0));
            None
        } else {
            Some(slot)
        }
    }

    /// Hands out a copy of the master key.
    pub fn coffer_view(&mut self) -> (res: Result<PoolSlot, Error>)
        requires
            old(self).wf(),
        ensures
            final(self).wf(),
            res is Ok <==> slot_available(old(self)@),
            res matches Ok(slot) ==> {
                &&& slot.wf()
                &&& slot.slab_index_spec() == Some(next_slot(old(self)@))
                &&& slot@ == old(self)@.key
                &&& final(self)@ == take_slot(old(self)@)
            },
            res matches Err(e) ==> {
                &&& final(self)@ == old(self)@
                &&& is_memory_error(e, NO_SLOT@)
            },
    {
        let mut slot: PoolSlot = match self.acquire(KEY_LEN) {
            Ok(slot) => slot,
            Err(e) => {
                return Err(e);
            },
        };
        copy_prefix(slot.bytes.as_mut_slice(), self.key.as_slice());
        assert(slot@ =~= old(self)@.key);
        Ok(slot)
    }

    /// Where the secret `id` is cached.
    fn find(&self, id: u64) -> (place: Option<usize>)
        requires
            self.wf(),
        ensures
            place is Some <==> is_cached(self@, id),
            place matches Some(i) ==> {
                &&& i < self.hot@.len()
                &&& cached_at(self@, id, i as int)
                &&& cache_place(self@, id) == i
            },
    {
        let mut i: usize = 0;
        while i < self.hot.len()
            invariant
                i <= self.hot@.len(),
                forall|j: int| 0 <= j < i ==> !cached_at(self@, id, j),
                self.wf(),
            decreases self.hot@.len() - i,
        {
            if self.hot[i].id == id {
                assert(cached_at(self@, id, i as int));
                return Some(i);
            }
            i += 1;
        }
        None
    }

    /// A copy of the cached secret `id`, where there is one and a slot is free.
    pub fn hot_cache_get(&mut self, id: u64) -> (res: Option<PoolSlot>)
        requires
            old(self).wf(),
        ensures
            final(self).wf(),
            res is Some <==> served_from_cache(old(self)@, id),
            res matches Some(slot) ==> {
                &&& slot.wf()
                &&& slot.slab_index_spec() == Some(next_slot(old(self)@))
                &&& slot@ == in_slot(cached(old(self)@, id))
                &&& final(self)@ == hand_out(old(self)@, id)
            },
            res is None ==> final(self)@ == old(self)@,
    {
        if self.free.len() == 0 {
            return None;
        }
        let place: usize = match self.find(id) {
            Some(place) => place,
            None => {
                return None;
            },
        };
        let ghost before = self.hot@;
        let mut slot: PoolSlot = match self.free.pop() {
            Some(slot) => slot,
            None => {
                return None;
            },
        };
        let entry: HotEntry = self.hot.remove(place);
        copy_prefix(slot.bytes.as_mut_slice(), entry.slot.bytes.as_slice());
        assert(slot.bytes@ =~= entry.slot.bytes@);
        self.hot.push(entry);
        proof {
            let ghost p = place as int;
            assert forall|i: int| 0 <= i < self.hot@.len() implies #[trigger] self.hot@[i]
                == before.remove(p).push(before[p])[i] by {}
            assert(self@.hot =~= hand_out(old(self)@, id).hot);
            assert(self@.free =~= old(self)@.free.drop_last());
        }
        Some(slot)
    }

    /// Takes the secret `id` out of the cache, if it is there.
    pub fn hot_cache_evict(&mut self, id: u64)
        requires
            old(self).wf(),
        ensures
            final(self).wf(),
            final(self)@ == evict(old(self)@, id),
    {
        if let Some(place) = self.find(id) {
            let ghost before = self.hot@;
            let entry: HotEntry = self.hot.remove(place);
            proof {
                assert forall|i: int| 0 <= i < self.hot@.len() implies #[trigger] self.hot@[i]
                    == before.remove(place as int)[i] by {}
                assert(self@.hot =~= evict(old(self)@, id).hot);
                assert(self@.free =~= old(self)@.free);
            }
            let _ = self.release(entry.slot);
        }
    }

    /// Puts a secret into the cache as the most recently used one, if it fits
    /// into a slot and one can be had.
    pub fn hot_cache_insert(&mut self, id: u64, secret: &[u8])
        requires
            old(self).wf(),
        ensures
            final(self).wf(),
            final(self)@ == insert(old(self)@, id, secret@),
    {
        if secret.len() > SLOT_SIZE {
            return;
        }
        proof {
            evicting_removes(self@, id);
        }
        self.hot_cache_evict(id);
        let ghost without = self@;
        if let Some(slot) = self.take() {
            let mut slot: PoolSlot = slot;
            let ghost taken = self@;
            proof {
                taking_keeps_others_out(without, id);
            }
            copy_prefix(slot.bytes.as_mut_slice(), secret);
            assert(slot.bytes@ =~= in_slot(secret@));
            assert(slot.bytes@.take(secret@.len() as int) =~= secret@);
            self.hot.push(HotEntry { id, slot, len: secret.len() });
            proof {
                assert(self@.hot =~= insert(old(self)@, id, secret@).hot);
                assert(self@.free =~= taken.free);
                assert forall|i: int| 0 <= i < taken.hot.len() implies #[trigger] taken.hot[i].id
                    != id by {
                    assert(!cached_at(taken, id, i));
                }
            }
        }
    }
}

/// After a secret is evicted it is not cached any more, and every other secret
/// is cached as before.
pub proof fn evicting_removes(pool: PoolState, id: u64)
    requires
        state_wf(pool),
    ensures
        state_wf(evict(pool, id)),
        !is_cached(evict(pool, id), id),
        forall|other: u64|
            other != id ==> (#[trigger] is_cached(evict(pool, id), other) <==> is_cached(pool, other)),
        forall|other: u64|
            other != id && is_cached(pool, other) ==> #[trigger] cached(evict(pool, id), other)
                == cached(pool, other),
{
    let after = evict(pool, id);
    if is_cached(pool, id) {
        let place = cache_place(pool, id);
        assert(cached_at(pool, id, place));
        assert forall|i: int| 0 <= i < after.hot.len() implies #[trigger] after.hot[i] == pool.hot[if i
            < place {
            i
        } else {
            i + 1
        }] by {}
        assert forall|i: int| !cached_at(after, id, i) by {
            if 0 <= i < after.hot.len() {
                assert(after.hot[i] == pool.hot[if i < place {
                    i
                } else {
                    i + 1
                }]);
            }
        }
        assert forall|other: u64| other != id implies (#[trigger] is_cached(after, other) <==> is_cached(
            pool,
            other,
        )) && (is_cached(pool, other) ==> cached(after, other) == cached(pool, other)) by {
            if is_cached(after, other) {
                let i = cache_place(after, other);
                assert(cached_at(after, other, i));
                assert(cached_at(
                    pool,
                    other,
                    if i < place {
                        i
                    } else {
                        i + 1
                    },
                ));
            }
            if is_cached(pool, other) {
                let i = cache_place(pool, other);
                assert(cached_at(pool, other, i));
                let j = if i < place { i } else { i - 1 };
                assert(after.hot[j] == pool.hot[i]);
                assert(cached_at(after, other, j));
            }
        }
        assert forall|other: u64| other != id && is_cached(pool, other) implies #[trigger] cached(
            after,
            other,
        ) == cached(pool, other) by {
            assert(is_cached(after, other) <==> is_cached(pool, other));
        }
    }
}

/// Taking a slot caches nothing: a secret that is cached afterwards was cached
/// before, with the same contents.
pub proof fn taking_keeps_others_out(pool: PoolState, id: u64)
    requires
        state_wf(pool),
        slot_available(pool),
    ensures
        state_wf(take_slot(pool)),
        is_cached(take_slot(pool), id) ==> is_cached(pool, id),
        is_cached(take_slot(pool), id) ==> cached(take_slot(pool), id) == cached(pool, id),
{
    let after = take_slot(pool);
    let shift: int = if pool.free.len() > 0 { 0 } else { 1 };
    assert forall|i: int| 0 <= i < after.hot.len() implies #[trigger] after.hot[i] == pool.hot[i
        + shift] by {}
    if is_cached(after, id) {
        let i = cache_place(after, id);
        assert(cached_at(after, id, i));
        assert(cached_at(pool, id, i + shift));
    }
}

/// Memory handed out for a secret begins with the secret, byte for byte, and
/// holds zeros behind it. It is a whole slot for a secret of at most thirty-two
/// bytes, and exactly as long as any longer one.
pub proof fn memory_begins_with_the_secret(secret: Seq<u8>)
    ensures
        in_slot(secret).len() == if secret.len() <= 32 {
            32
        } else {
            secret.len() as int
        },
        in_slot(secret).take(secret.len() as int) == secret,
        forall|i: int| 0 <= i < secret.len() ==> #[trigger] in_slot(secret)[i] == secret[i],
        forall|i: int|
            secret.len() <= i < in_slot(secret).len() ==> #[trigger] in_slot(secret)[i] == 0u8,
{
    assert(in_slot(secret).take(secret.len() as int) =~= secret);
}

/// Memory asked for is large enough and zero throughout: a slot of thirty-two
/// bytes, or exactly the size where that is more.
pub proof fn acquired_memory_is_zero(size: nat, memory: Seq<u8>)
    requires
        memory == in_slot(zeros(size)),
    ensures
        memory.len() >= size,
        memory.len() == if size <= 32 {
            32
        } else {
            size as int
        },
        forall|i: int| 0 <= i < memory.len() ==> #[trigger] memory[i] == 0u8,
{
    memory_begins_with_the_secret(zeros(size));
    zeros_are_zero(size);
}

/// A secret is cached exactly where an entry with its number stands, and is what
/// that entry holds.
pub proof fn cached_is_what_its_entry_holds(pool: PoolState, id: u64, i: int)
    requires
        state_wf(pool),
    ensures
        is_cached(pool, id) <==> exists|j: int|
            0 <= j < pool.hot.len() && #[trigger] pool.hot[j].id == id,
        0 <= i < pool.hot.len() && pool.hot[i].id == id ==> cached(pool, id) == pool.hot[i].secret,
        served_from_cache(pool, id) <==> is_cached(pool, id) && pool.free.len() > 0,
        slot_available(pool) <==> pool.free.len() > 0 || pool.hot.len() > 0,
{
    if exists|j: int| 0 <= j < pool.hot.len() && #[trigger] pool.hot[j].id == id {
        let j = choose|j: int| 0 <= j < pool.hot.len() && #[trigger] pool.hot[j].id == id;
        assert(cached_at(pool, id, j));
    }
    if is_cached(pool, id) {
        let j = cache_place(pool, id);
        assert(cached_at(pool, id, j));
        assert(pool.hot[j].id == id);
    }
    if 0 <= i < pool.hot.len() && pool.hot[i].id == id {
        assert(cached_at(pool, id, i));
    }
}

/// A slot that comes back is the next to be taken, and taking it leaves the pool
/// as it was.
pub proof fn returned_slot_is_taken_next(pool: PoolState, slot: usize)
    ensures
        next_slot(give_slot(pool, slot)) == slot,
        take_slot(give_slot(pool, slot)) == pool,
{
    assert(take_slot(give_slot(pool, slot)).free =~= pool.free);
}

/// While a slot is free, taking one leaves the cache alone. Without a free slot
/// exactly the secret that was used longest ago loses its own.
pub proof fn least_recently_used_gives_way(pool: PoolState)
    requires
        slot_available(pool),
    ensures
        pool.free.len() > 0 ==> take_slot(pool).hot == pool.hot,
        pool.free.len() == 0 ==> {
            &&& take_slot(pool).hot == pool.hot.subrange(1, pool.hot.len() as int)
            &&& next_slot(pool) == pool.hot[0].slot
            &&& take_slot(pool).free == pool.free
        },
{
}

/// A secret that was just handed out or cached is the last to give way: it stands
/// behind all others, which keep their order.
pub proof fn used_secret_becomes_most_recent(pool: PoolState, id: u64, secret: Seq<u8>)
    requires
        state_wf(pool),
    ensures
        is_cached(pool, id) ==> {
            let after = hand_out(pool, id).hot;
            &&& after.len() == pool.hot.len()
            &&& after.last().id == id
            &&& after.last().secret == cached(pool, id)
            &&& after.drop_last() == evict(pool, id).hot
        },
        secret.len() <= 32 && slot_available(evict(pool, id)) ==> {
            let after = insert(pool, id, secret).hot;
            &&& after.len() > 0
            &&& after.last().id == id
            &&& after.last().secret == secret
            &&& after.drop_last() == take_slot(evict(pool, id)).hot
        },
{
    if is_cached(pool, id) {
        assert(cached_at(pool, id, cache_place(pool, id)));
        assert(hand_out(pool, id).hot.drop_last() =~= evict(pool, id).hot);
    }
    if secret.len() <= 32 && slot_available(evict(pool, id)) {
        assert(insert(pool, id, secret).hot.drop_last() =~= take_slot(evict(pool, id)).hot);
    }
}

/// A secret larger than a slot is not cached, and changes nothing; for a smaller
/// one the entry of before goes even where no slot can be had.
pub proof fn large_secret_is_not_cached(pool: PoolState, id: u64, secret: Seq<u8>)
    ensures
        secret.len() > 32 ==> insert(pool, id, secret) == pool,
        secret.len() <= 32 && !slot_available(evict(pool, id)) ==> insert(pool, id, secret) == evict(
            pool,
            id,
        ),
{
}

/// Evicting takes one entry out and leaves the others in their order; its slot is
/// free.
pub proof fn evicting_takes_one_entry(pool: PoolState, id: u64, i: int)
    requires
        state_wf(pool),
        0 <= i < pool.hot.len(),
        pool.hot[i].id == id,
    ensures
        evict(pool, id).hot == pool.hot.subrange(0, i) + pool.hot.subrange(
            i + 1,
            pool.hot.len() as int,
        ),
        evict(pool, id).free == pool.free.push(pool.hot[i].slot),
        evict(pool, id).key == pool.key,
{
    assert(cached_at(pool, id, i));
    assert(cached_at(pool, id, cache_place(pool, id)));
    assert(evict(pool, id).hot =~= pool.hot.subrange(0, i) + pool.hot.subrange(
        i + 1,
        pool.hot.len() as int,
    ));
}

/// The slab has sixty-four slots, each once, numbered from zero; the lowest is
/// taken first.
pub proof fn slab_has_each_slot_once(index: usize)
    ensures
        all_slots().len() == 64,
        index < 64 <==> exists|i: int| 0 <= i < 64 && #[trigger] all_slots()[i] == index,
        forall|i: int, j: int|
            0 <= i < j < 64 ==> #[trigger] all_slots()[i] > #[trigger] all_slots()[j],
{
    if index < 64 {
        assert(all_slots()[63 - index] == index);
    }
}

} // verus!
