//! What holds of a vault over any sequence of operations on it.

use crate::error::Error;
use crate::memory::memory_enclave::{
    after_seal, decrypted, deliver_state, open_result, open_state, opened_memory_is_the_secret,
    opens_to, sealed, shows, OpenResult, VaultState,
};
use crate::memory::nonce::{nonce_of, nonces_differ};
use crate::memory::pool::{
    all_slots, cache_place, cached, cached_at, evict, evicting_removes, give_slot, hand_out, insert,
    is_cached, lend_slot, memory_begins_with_the_secret, next_slot, served_from_cache,
    slot_available, state_wf, take_slot, taking_keeps_others_out, CachedSecret, PoolSlot, PoolState,
    SLOT_SIZE,
};
use crate::outside::{MAX_MESSAGE_LEN, NONCE_LEN, TAG_LEN};
use vstd::multiset::Multiset;
use vstd::prelude::*;

verus! {

/// Where the secret `id` is cached, it is cached with these contents.
pub open spec fn coherent(pool: PoolState, id: u64, secret: Seq<u8>) -> bool {
    is_cached(pool, id) ==> cached(pool, id) == secret
}

/// The slots that hold cached secrets.
pub open spec fn hot_slots(hot: Seq<CachedSecret>) -> Seq<usize> {
    Seq::new(hot.len(), |i: int| hot[i].slot)
}

/// The slots that the pool has at its disposal: free ones and those of cached
/// secrets.
pub open spec fn held(pool: PoolState) -> Multiset<usize> {
    pool.free.to_multiset().add(hot_slots(pool.hot).to_multiset())
}

/// Taking the last element away from a sequence, or adding one, does the same to
/// its multiset.
proof fn lemma_last<A>(s: Seq<A>, a: A)
    ensures
        s.push(a).to_multiset() == s.to_multiset().insert(a),
        s.len() > 0 ==> s.drop_last().to_multiset() == s.to_multiset().remove(s.last()),
        s.len() > 0 ==> s.to_multiset().count(s.last()) > 0,
{
    s.to_multiset_ensures();
    if s.len() > 0 {
        assert(s.drop_last() =~= s.remove(s.len() - 1));
        assert(s.contains(s.last()));
    }
}

/// Taking an entry out of the cache takes its slot out.
proof fn lemma_remove_hot(hot: Seq<CachedSecret>, i: int)
    requires
        0 <= i < hot.len(),
    ensures
        hot_slots(hot.remove(i)).to_multiset() == hot_slots(hot).to_multiset().remove(hot[i].slot),
        hot_slots(hot).to_multiset().count(hot[i].slot) > 0,
{
    let all = hot_slots(hot);
    all.to_multiset_ensures();
    assert(hot_slots(hot.remove(i)) =~= all.remove(i));
    assert(all[i] == hot[i].slot);
    assert(all.contains(hot[i].slot));
}

/// Adding an entry to the cache adds its slot.
proof fn lemma_push_hot(hot: Seq<CachedSecret>, entry: CachedSecret)
    ensures
        hot_slots(hot.push(entry)).to_multiset() == hot_slots(hot).to_multiset().insert(entry.slot),
{
    hot_slots(hot).to_multiset_ensures();
    assert(hot_slots(hot.push(entry)) =~= hot_slots(hot).push(entry.slot));
}

/// Taking a slot keeps the key and the soundness of the pool, caches nothing,
/// and takes this slot.
pub proof fn taking_a_slot(pool: PoolState)
    requires
        state_wf(pool),
        slot_available(pool),
    ensures
        state_wf(take_slot(pool)),
        take_slot(pool).key == pool.key,
        held(pool).count(next_slot(pool)) > 0,
        held(take_slot(pool)) == held(pool).remove(next_slot(pool)),
        forall|id: u64| #[trigger] is_cached(take_slot(pool), id) ==> is_cached(pool, id),
        forall|id: u64, secret: Seq<u8>|
            coherent(pool, id, secret) ==> #[trigger] coherent(take_slot(pool), id, secret),
{
    taking_keeps_others_out(pool, 0);
    if pool.free.len() > 0 {
        lemma_last(pool.free, 0);
    } else {
        lemma_remove_hot(pool.hot, 0);
        assert(pool.hot.drop_first() =~= pool.hot.remove(0));
    }
    assert(held(take_slot(pool)) =~= held(pool).remove(next_slot(pool)));
    assert forall|id: u64| #[trigger] is_cached(take_slot(pool), id) implies is_cached(pool, id) by {
        taking_keeps_others_out(pool, id);
    }
    assert forall|id: u64, secret: Seq<u8>| coherent(pool, id, secret) implies #[trigger] coherent(
        take_slot(pool),
        id,
        secret,
    ) by {
        taking_keeps_others_out(pool, id);
    }
}

/// Giving a slot back keeps the key, the cache and the soundness of the pool,
/// and adds this slot.
pub proof fn giving_a_slot(pool: PoolState, slot: usize)
    requires
        state_wf(pool),
    ensures
        state_wf(give_slot(pool, slot)),
        give_slot(pool, slot).key == pool.key,
        held(give_slot(pool, slot)) == held(pool).insert(slot),
        forall|id: u64| #[trigger] is_cached(give_slot(pool, slot), id) ==> is_cached(pool, id),
        forall|id: u64, secret: Seq<u8>|
            coherent(pool, id, secret) ==> #[trigger] coherent(give_slot(pool, slot), id, secret),
{
    let after = give_slot(pool, slot);
    lemma_last(pool.free, slot);
    assert(held(after) =~= held(pool).insert(slot));
    assert forall|id: u64| #[trigger] is_cached(after, id) implies is_cached(pool, id) && cached(
        after,
        id,
    ) == cached(pool, id) by {
        let i = cache_place(after, id);
        assert(cached_at(after, id, i));
        assert(cached_at(pool, id, i));
        assert(cached_at(pool, id, cache_place(pool, id)));
    }
    assert forall|id: u64, secret: Seq<u8>| coherent(pool, id, secret) implies #[trigger] coherent(
        after,
        id,
        secret,
    ) by {
        if is_cached(after, id) {
            assert(cached(after, id) == cached(pool, id));
        }
    }
}

/// Lending a slot for a moment keeps the key, the soundness of the pool and its
/// slots, and caches nothing.
pub proof fn lending_a_slot(pool: PoolState)
    requires
        state_wf(pool),
        slot_available(pool),
    ensures
        state_wf(lend_slot(pool)),
        lend_slot(pool).key == pool.key,
        lend_slot(pool).free.len() > 0,
        held(lend_slot(pool)) == held(pool),
        forall|id: u64| #[trigger] is_cached(lend_slot(pool), id) ==> is_cached(pool, id),
        forall|id: u64, secret: Seq<u8>|
            coherent(pool, id, secret) ==> #[trigger] coherent(lend_slot(pool), id, secret),
{
    let taken = take_slot(pool);
    taking_a_slot(pool);
    giving_a_slot(taken, next_slot(pool));
    assert(held(lend_slot(pool)) =~= held(pool));
    assert forall|id: u64| #[trigger] is_cached(lend_slot(pool), id) implies is_cached(pool, id) by {
        assert(is_cached(taken, id));
    }
    assert forall|id: u64, secret: Seq<u8>| coherent(pool, id, secret) implies #[trigger] coherent(
        lend_slot(pool),
        id,
        secret,
    ) by {
        assert(coherent(taken, id, secret));
    }
}

/// Evicting a secret keeps the key, the soundness of the pool and its slots.
pub proof fn evicting(pool: PoolState, gone: u64)
    requires
        state_wf(pool),
    ensures
        state_wf(evict(pool, gone)),
        evict(pool, gone).key == pool.key,
        held(evict(pool, gone)) == held(pool),
        forall|id: u64| #[trigger] is_cached(evict(pool, gone), id) ==> is_cached(pool, id),
        forall|id: u64, secret: Seq<u8>|
            coherent(pool, id, secret) ==> #[trigger] coherent(evict(pool, gone), id, secret),
{
    evicting_removes(pool, gone);
    if is_cached(pool, gone) {
        let place = cache_place(pool, gone);
        assert(cached_at(pool, gone, place));
        lemma_remove_hot(pool.hot, place);
        lemma_last(pool.free, pool.hot[place].slot);
        assert(held(evict(pool, gone)) =~= held(pool));
    }
}

/// Caching a secret keeps the key, the soundness of the pool and its slots. It is
/// the only secret that can be cached newly, and only with these contents.
pub proof fn inserting(pool: PoolState, new: u64, contents: Seq<u8>)
    requires
        state_wf(pool),
    ensures
        state_wf(insert(pool, new, contents)),
        insert(pool, new, contents).key == pool.key,
        held(insert(pool, new, contents)) == held(pool),
        slot_available(pool) ==> slot_available(insert(pool, new, contents)),
        forall|id: u64| #[trigger]
            is_cached(insert(pool, new, contents), id) ==> is_cached(pool, id) || id == new,
        forall|id: u64, secret: Seq<u8>|
            coherent(pool, id, secret) && (id == new ==> secret == contents)
                ==> #[trigger] coherent(insert(pool, new, contents), id, secret),
        contents.len() <= SLOT_SIZE && slot_available(pool) ==> {
            &&& is_cached(insert(pool, new, contents), new)
            &&& cached(insert(pool, new, contents), new) == contents
        },
{
    if contents.len() <= SLOT_SIZE {
        let without = evict(pool, new);
        evicting(pool, new);
        evicting_removes(pool, new);
        if slot_available(without) {
            let taken = take_slot(without);
            taking_a_slot(without);
            let after = insert(pool, new, contents);
            let n = taken.hot.len() as int;
            let entry = CachedSecret { id: new, secret: contents, slot: next_slot(without) };
            assert(after.hot == taken.hot.push(entry));
            lemma_push_hot(taken.hot, entry);
            assert(held(after) =~= held(taken).insert(entry.slot));
            assert(held(taken).insert(entry.slot) =~= held(without));
            assert forall|i: int| 0 <= i < n implies #[trigger] taken.hot[i].id != new by {
                if taken.hot[i].id == new {
                    assert(cached_at(taken, new, i));
                    assert(is_cached(taken, new));
                }
            }
            assert(cached_at(after, new, n));
            assert(cached_at(after, new, cache_place(after, new)));
            assert forall|id: u64| id != new && #[trigger] is_cached(after, id) implies is_cached(
                taken,
                id,
            ) && cached(after, id) == cached(taken, id) by {
                let i = cache_place(after, id);
                assert(cached_at(after, id, i));
                assert(cached_at(taken, id, i));
                assert(cached_at(taken, id, cache_place(taken, id)));
            }
            assert forall|id: u64| #[trigger] is_cached(after, id) implies is_cached(pool, id) || id
                == new by {
                if id != new {
                    assert(is_cached(taken, id));
                    assert(is_cached(without, id));
                }
            }
            assert forall|id: u64, secret: Seq<u8>|
                coherent(pool, id, secret) && (id == new ==> secret == contents) implies #[trigger] coherent(
                after,
                id,
                secret,
            ) by {
                assert(coherent(without, id, secret));
                assert(coherent(taken, id, secret));
                if id != new && is_cached(after, id) {
                    assert(cached(after, id) == cached(taken, id));
                }
            }
        }
    }
}

/// Handing out a cached secret keeps the key, the soundness of the pool and what
/// is cached, and takes the next slot.
pub proof fn handing_out(pool: PoolState, used: u64)
    requires
        state_wf(pool),
        served_from_cache(pool, used),
    ensures
        state_wf(hand_out(pool, used)),
        hand_out(pool, used).key == pool.key,
        held(pool).count(next_slot(pool)) > 0,
        held(hand_out(pool, used)) == held(pool).remove(next_slot(pool)),
        is_cached(hand_out(pool, used), used),
        forall|id: u64| #[trigger] is_cached(hand_out(pool, used), id) ==> is_cached(pool, id),
        forall|id: u64, secret: Seq<u8>|
            coherent(pool, id, secret) ==> #[trigger] coherent(hand_out(pool, used), id, secret),
{
    let after = hand_out(pool, used);
    let place = cache_place(pool, used);
    assert(cached_at(pool, used, place));
    let n = pool.hot.len() as int;
    lemma_last(pool.free, 0);
    lemma_remove_hot(pool.hot, place);
    lemma_push_hot(pool.hot.remove(place), pool.hot[place]);
    assert(held(after) =~= held(pool).remove(next_slot(pool)));
    assert forall|i: int| 0 <= i < n implies #[trigger] after.hot[i] == pool.hot[if i == n - 1 {
        place
    } else if i < place {
        i
    } else {
        i + 1
    }] by {}
    assert(cached_at(after, used, n - 1));
    assert forall|id: u64| #[trigger] is_cached(after, id) implies is_cached(pool, id) && cached(
        after,
        id,
    ) == cached(pool, id) by {
        let i = cache_place(after, id);
        assert(cached_at(after, id, i));
        let j = if i == n - 1 {
            place
        } else if i < place {
            i
        } else {
            i + 1
        };
        assert(after.hot[i] == pool.hot[j]);
        assert(cached_at(pool, id, j));
        assert(cached_at(pool, id, cache_place(pool, id)));
    }
    assert forall|id: u64, secret: Seq<u8>| coherent(pool, id, secret) implies #[trigger] coherent(
        after,
        id,
        secret,
    ) by {
        if is_cached(after, id) {
            assert(cached(after, id) == cached(pool, id));
        }
    }
}

/// The slot of the slab that opening gives out, if it does.
pub open spec fn slot_given(result: OpenResult) -> Option<usize> {
    match result {
        OpenResult::Contents(_, slab_index) => slab_index,
        _ => None,
    }
}

/// The slots left of some after one of them is given out, if one is.
pub open spec fn without_slot(slots: Multiset<usize>, given: Option<usize>) -> Multiset<usize> {
    match given {
        Some(slot) => slots.remove(slot),
        None => slots,
    }
}

/// Opening a secret, successfully or not, keeps the key and the soundness of the
/// pool. It costs exactly the slot that it gives out: the slot for the key always
/// comes back. Only the opened secret can be cached newly, and only with what its
/// ciphertext decrypts to.
pub proof fn opening(pool: PoolState, opened: u64, ciphertext: Seq<u8>)
    requires
        state_wf(pool),
    ensures
        state_wf(open_state(pool, opened, ciphertext)),
        open_state(pool, opened, ciphertext).key == pool.key,
        slot_given(open_result(pool, opened, ciphertext)) matches Some(slot) ==> held(pool).count(slot)
            > 0,
        held(open_state(pool, opened, ciphertext)) == without_slot(
            held(pool),
            slot_given(open_result(pool, opened, ciphertext)),
        ),
        forall|id: u64| #[trigger]
            is_cached(open_state(pool, opened, ciphertext), id) ==> is_cached(pool, id) || id
                == opened,
        forall|id: u64, secret: Seq<u8>|
            coherent(pool, id, secret) && (id == opened ==> decrypted(pool.key, ciphertext) == Some(
                secret,
            )) ==> #[trigger] coherent(open_state(pool, opened, ciphertext), id, secret),
{
    if served_from_cache(pool, opened) {
        handing_out(pool, opened);
    } else if ciphertext.len() < NONCE_LEN + TAG_LEN || !slot_available(pool) {
    } else {
        let back = lend_slot(pool);
        lending_a_slot(pool);
        let plaintext = decrypted(pool.key, ciphertext);
        let after = deliver_state(back, opened, plaintext);
        if let Some(contents) = plaintext {
            let stored = insert(back, opened, contents);
            inserting(back, opened, contents);
            evicting(stored, opened);
            if slot_available(stored) {
                taking_a_slot(stored);
            }
            assert forall|id: u64| #[trigger] is_cached(after, id) implies is_cached(pool, id) || id
                == opened by {
                assert(is_cached(stored, id));
                if id != opened {
                    assert(is_cached(back, id));
                }
            }
            assert forall|id: u64, secret: Seq<u8>|
                coherent(pool, id, secret) && (id == opened ==> plaintext == Some(
                    secret,
                )) implies #[trigger] coherent(after, id, secret) by {
                assert(coherent(back, id, secret));
                assert(coherent(stored, id, secret));
            }
        }
    }
}

/// One operation on a vault.
pub enum Step {
    /// Memory for so many bytes is asked for.
    Acquire(usize),
    /// This slot of the slab comes back.
    Release(usize),
    /// A copy of the master key is asked for.
    CofferView,
    /// A secret is looked for in the cache.
    CacheGet(u64),
    /// A secret of this length is sealed.
    Seal(nat),
    /// The secret with this number and ciphertext is opened.
    Open(u64, Seq<u8>),
    /// The secret with this number is given up.
    Close(u64),
}

/// The vault after one operation.
pub open spec fn after_step(vault: VaultState, step: Step) -> VaultState {
    match step {
        Step::Acquire(size) => if size <= SLOT_SIZE && slot_available(vault.pool) {
            VaultState { pool: take_slot(vault.pool), ..vault }
        } else {
            vault
        },
        Step::Release(slot) => VaultState { pool: give_slot(vault.pool, slot), ..vault },
        Step::CofferView => if slot_available(vault.pool) {
            VaultState { pool: take_slot(vault.pool), ..vault }
        } else {
            vault
        },
        Step::CacheGet(id) => if served_from_cache(vault.pool, id) {
            VaultState { pool: hand_out(vault.pool, id), ..vault }
        } else {
            vault
        },
        Step::Seal(len) => after_seal(vault, len),
        Step::Open(id, ciphertext) => VaultState {
            pool: open_state(vault.pool, id, ciphertext),
            ..vault
        },
        Step::Close(id) => VaultState { pool: evict(vault.pool, id), ..vault },
    }
}

/// The vault after a sequence of operations.
pub open spec fn after_steps(vault: VaultState, steps: Seq<Step>) -> VaultState
    decreases steps.len(),
{
    if steps.len() == 0 {
        vault
    } else {
        after_step(after_steps(vault, steps.drop_last()), steps.last())
    }
}

/// Whoever opens a secret under this number does so with this ciphertext.
pub open spec fn opens_only(steps: Seq<Step>, id: u64, ciphertext: Seq<u8>) -> bool {
    forall|i: int|
        0 <= i < steps.len() ==> (#[trigger] steps[i] matches Step::Open(opened, used) ==> opened == id
            ==> used == ciphertext)
}

/// Every operation keeps the key and the soundness of the pool, and what a
/// secret is cached with if it is opened with its own ciphertext only.
pub proof fn step_keeps_secret(vault: VaultState, step: Step, id: u64, ciphertext: Seq<u8>, secret: Seq<
    u8,
>)
    requires
        state_wf(vault.pool),
        coherent(vault.pool, id, secret),
        decrypted(vault.pool.key, ciphertext) == Some(secret),
        step matches Step::Open(opened, used) ==> opened == id ==> used == ciphertext,
    ensures
        state_wf(after_step(vault, step).pool),
        after_step(vault, step).pool.key == vault.pool.key,
        coherent(after_step(vault, step).pool, id, secret),
{
    let pool = vault.pool;
    if slot_available(pool) {
        taking_a_slot(pool);
        lending_a_slot(pool);
        assert(coherent(take_slot(pool), id, secret));
        assert(coherent(lend_slot(pool), id, secret));
    }
    match step {
        Step::Release(slot) => {
            giving_a_slot(pool, slot);
        },
        Step::CacheGet(used) => {
            if served_from_cache(pool, used) {
                handing_out(pool, used);
            }
        },
        Step::Open(opened, used) => {
            opening(pool, opened, used);
        },
        Step::Close(gone) => {
            evicting(pool, gone);
        },
        _ => {},
    }
}

/// What [`step_keeps_secret`] says of one operation holds of any sequence.
pub proof fn steps_keep_secret(vault: VaultState, steps: Seq<Step>, id: u64, ciphertext: Seq<u8>, secret: Seq<
    u8,
>)
    requires
        state_wf(vault.pool),
        coherent(vault.pool, id, secret),
        decrypted(vault.pool.key, ciphertext) == Some(secret),
        opens_only(steps, id, ciphertext),
    ensures
        state_wf(after_steps(vault, steps).pool),
        after_steps(vault, steps).pool.key == vault.pool.key,
        coherent(after_steps(vault, steps).pool, id, secret),
    decreases steps.len(),
{
    if steps.len() > 0 {
        let front = steps.drop_last();
        assert forall|i: int| 0 <= i < front.len() implies (#[trigger] front[i] matches Step::Open(
            opened,
            used,
        ) ==> opened == id ==> used == ciphertext) by {
            assert(front[i] == steps[i]);
        }
        steps_keep_secret(vault, front, id, ciphertext, secret);
        step_keeps_secret(after_steps(vault, front), steps.last(), id, ciphertext, secret);
    }
}

/// Opening gives memory that begins with this secret, byte for byte, and holds
/// zeros behind it: thirty-two bytes, or the secret alone where it is longer.
pub open spec fn gives(result: OpenResult, secret: Seq<u8>) -> bool {
    result matches OpenResult::Contents(bytes, _) && {
        &&& bytes.len() == if secret.len() <= 32 {
            32
        } else {
            secret.len() as int
        }
        &&& bytes.take(secret.len() as int) == secret
        &&& forall|i: int| secret.len() <= i < bytes.len() ==> #[trigger] bytes[i] == 0u8
    }
}

/// A sealed secret opens to what was sealed, whatever else is done with the
/// vault in between, from the cache or not: the memory begins with the secret,
/// byte for byte, and holds zeros behind it.
pub proof fn sealed_secret_opens(
    vault: VaultState,
    secret: Seq<u8>,
    steps: Seq<Step>,
    res: Result<PoolSlot, Error>,
)
    requires
        state_wf(vault.pool),
        slot_available(vault.pool),
        secret.len() <= MAX_MESSAGE_LEN,
        secret.len() <= isize::MAX,
        !is_cached(vault.pool, vault.next_id),
        opens_to(vault.pool.key, sealed(vault, secret).ciphertext, secret),
        opens_only(steps, vault.next_id, sealed(vault, secret).ciphertext),
        slot_available(after_steps(after_seal(vault, secret.len()), steps).pool),
        shows(
            res,
            open_result(
                after_steps(after_seal(vault, secret.len()), steps).pool,
                vault.next_id,
                sealed(vault, secret).ciphertext,
            ),
        ),
    ensures
        res matches Ok(slot) && {
            &&& slot@.len() == if secret.len() <= 32 {
                32
            } else {
                secret.len() as int
            }
            &&& slot@.take(secret.len() as int) == secret
            &&& forall|i: int| 0 <= i < secret.len() ==> #[trigger] slot@[i] == secret[i]
            &&& forall|i: int| secret.len() <= i < slot@.len() ==> #[trigger] slot@[i] == 0u8
        },
{
    let id = vault.next_id;
    let ciphertext = sealed(vault, secret).ciphertext;
    let start = after_seal(vault, secret.len());
    lending_a_slot(vault.pool);
    assert(coherent(vault.pool, id, secret));
    assert(coherent(start.pool, id, secret));
    steps_keep_secret(start, steps, id, ciphertext, secret);
    let pool = after_steps(start, steps).pool;
    opened_memory_is_the_secret(pool, id, ciphertext, secret, res);
    if is_cached(pool, id) {
        assert(cached_at(pool, id, cache_place(pool, id)));
    }
}

/// Every cached secret has a number that was given out before.
pub open spec fn numbers_fresh(vault: VaultState) -> bool {
    forall|id: u64| #[trigger] is_cached(vault.pool, id) ==> id < vault.next_id
}

/// With nothing cached, as in a new vault, no number is taken.
pub proof fn empty_cache_is_fresh(vault: VaultState)
    requires
        vault.pool.hot.len() == 0,
    ensures
        numbers_fresh(vault),
        !is_cached(vault.pool, vault.next_id),
{
}

/// As long as only secrets with numbers given out before are opened and the
/// numbers do not run out, the next number is that of no cached secret.
pub proof fn numbers_stay_fresh(vault: VaultState, step: Step)
    requires
        state_wf(vault.pool),
        numbers_fresh(vault),
        step matches Step::Open(id, _) ==> id < vault.next_id,
        step is Seal ==> vault.next_id < u64::MAX,
    ensures
        state_wf(after_step(vault, step).pool),
        numbers_fresh(after_step(vault, step)),
        !is_cached(after_step(vault, step).pool, after_step(vault, step).next_id),
{
    let pool = vault.pool;
    if slot_available(pool) {
        taking_a_slot(pool);
        lending_a_slot(pool);
    }
    match step {
        Step::Release(slot) => {
            giving_a_slot(pool, slot);
        },
        Step::CacheGet(used) => {
            if served_from_cache(pool, used) {
                handing_out(pool, used);
            }
        },
        Step::Open(opened, used) => {
            opening(pool, opened, used);
        },
        Step::Close(gone) => {
            evicting(pool, gone);
        },
        _ => {},
    }
    let after = after_step(vault, step);
    assert forall|id: u64| #[trigger] is_cached(after.pool, id) implies id < after.next_id by {
        if !(step is Open) {
            assert(is_cached(pool, id));
        }
    }
}

/// In these operations only secrets with numbers given out before are opened,
/// and the numbers do not run out.
pub open spec fn orderly(vault: VaultState, steps: Seq<Step>) -> bool
    decreases steps.len(),
{
    steps.len() == 0 || {
        let before = after_steps(vault, steps.drop_last());
        &&& orderly(vault, steps.drop_last())
        &&& steps.last() matches Step::Open(id, _) ==> id < before.next_id
        &&& steps.last() is Seal ==> before.next_id < u64::MAX
    }
}

/// After any orderly operations on a new vault, the next number is that of no
/// cached secret.
pub proof fn next_number_is_never_taken(vault: VaultState, steps: Seq<Step>)
    requires
        state_wf(vault.pool),
        vault.pool.hot.len() == 0,
        orderly(vault, steps),
    ensures
        state_wf(after_steps(vault, steps).pool),
        numbers_fresh(after_steps(vault, steps)),
        !is_cached(after_steps(vault, steps).pool, after_steps(vault, steps).next_id),
    decreases steps.len(),
{
    if steps.len() == 0 {
        empty_cache_is_fresh(vault);
    } else {
        next_number_is_never_taken(vault, steps.drop_last());
        numbers_stay_fresh(after_steps(vault, steps.drop_last()), steps.last());
    }
}

/// Sealing costs no slot: the one for the key comes back.
pub proof fn sealing_keeps_slots(vault: VaultState, len: nat)
    requires
        state_wf(vault.pool),
    ensures
        held(after_seal(vault, len).pool) == held(vault.pool),
        after_seal(vault, len).pool.key == vault.pool.key,
{
    if slot_available(vault.pool) {
        lending_a_slot(vault.pool);
    }
}

/// After a secret that fits into a slot was opened and its slot came back, a
/// copy of it can be handed out without decryption.
pub proof fn reopening_uses_cache(
    pool: PoolState,
    id: u64,
    ciphertext: Seq<u8>,
    secret: Seq<u8>,
    slot: usize,
)
    requires
        state_wf(pool),
        !is_cached(pool, id),
        pool.free.len() >= 2,
        opens_to(pool.key, ciphertext, secret),
        secret.len() <= SLOT_SIZE,
        slot_given(open_result(pool, id, ciphertext)) == Some(slot),
    ensures
        ({
            let after = give_slot(open_state(pool, id, ciphertext), slot);
            &&& served_from_cache(after, id)
            &&& cached(after, id) == secret
            &&& gives(open_result(after, id, ciphertext), secret)
        }),
{
    memory_begins_with_the_secret(secret);
    lending_a_slot(pool);
    let back = lend_slot(pool);
    assert(back.free =~= pool.free);
    assert(back.hot =~= pool.hot);
    inserting(back, id, secret);
    let stored = insert(back, id, secret);
    let taken = take_slot(stored);
    let after = give_slot(taken, slot);
    assert(cached_at(stored, id, cache_place(stored, id)));
    assert(cached_at(after, id, cache_place(stored, id)));
    taking_a_slot(stored);
    giving_a_slot(taken, slot);
    assert(coherent(stored, id, secret));
    assert(coherent(taken, id, secret));
    assert(coherent(after, id, secret));
}

/// A ciphertext that is too short or does not authenticate is refused, and
/// nothing of it is cached.
pub proof fn damaged_secret_is_refused(pool: PoolState, id: u64, ciphertext: Seq<u8>)
    requires
        state_wf(pool),
        !is_cached(pool, id),
        slot_available(pool),
        ciphertext.len() < NONCE_LEN + TAG_LEN || decrypted(pool.key, ciphertext) is None,
    ensures
        open_result(pool, id, ciphertext) == if ciphertext.len() < NONCE_LEN + TAG_LEN {
            OpenResult::TooShort
        } else {
            OpenResult::NotAuthentic
        },
        !is_cached(open_state(pool, id, ciphertext), id),
        held(open_state(pool, id, ciphertext)) == held(pool),
{
    lending_a_slot(pool);
}

/// After an enclave is closed its secret is not in the cache any more.
pub proof fn closed_secret_is_gone(vault: VaultState, id: u64)
    requires
        state_wf(vault.pool),
    ensures
        !is_cached(after_step(vault, Step::Close(id)).pool, id),
        held(after_step(vault, Step::Close(id)).pool) == held(vault.pool),
{
    evicting_removes(vault.pool, id);
    evicting(vault.pool, id);
}

/// The slot of the slab that an operation gives out, if it does.
pub open spec fn step_gives(vault: VaultState, step: Step) -> Option<usize> {
    match step {
        Step::Acquire(size) => if size <= SLOT_SIZE && slot_available(vault.pool) {
            Some(next_slot(vault.pool))
        } else {
            None
        },
        Step::CofferView => if slot_available(vault.pool) {
            Some(next_slot(vault.pool))
        } else {
            None
        },
        Step::CacheGet(id) => if served_from_cache(vault.pool, id) {
            Some(next_slot(vault.pool))
        } else {
            None
        },
        Step::Open(id, ciphertext) => slot_given(open_result(vault.pool, id, ciphertext)),
        _ => None,
    }
}

/// The slots that are out after an operation, given those out before.
pub open spec fn out_after(vault: VaultState, step: Step, out: Multiset<usize>) -> Multiset<usize> {
    match step {
        Step::Release(slot) => out.remove(slot),
        _ => match step_gives(vault, step) {
            Some(slot) => out.insert(slot),
            None => out,
        },
    }
}

/// No slot is with the pool twice, out twice, or both with the pool and out.
pub open spec fn slots_apart(pool: PoolState, out: Multiset<usize>) -> bool {
    forall|slot: usize| #[trigger] held(pool).count(slot) + out.count(slot) <= 1
}

/// In a new pool every slot is there once.
pub proof fn new_pool_has_slots_apart(pool: PoolState)
    requires
        pool.free == all_slots(),
        pool.hot.len() == 0,
    ensures
        slots_apart(pool, Multiset::empty()),
{
    let hot = hot_slots(pool.hot);
    hot.to_multiset_ensures();
    all_slots().to_multiset_ensures();
    assert(all_slots().no_duplicates());
    all_slots().lemma_multiset_has_no_duplicates();
    assert forall|slot: usize| #[trigger] held(pool).count(slot) <= 1 by {
        assert(!hot.contains(slot));
        assert(hot.to_multiset().count(slot) == 0);
        if all_slots().to_multiset().count(slot) > 0 {
            assert(all_slots().to_multiset().contains(slot));
        }
    }
}

/// Slots stay apart as long as only slots that are out come back: a slot that is
/// given out is not with the pool any more and was not out already.
pub proof fn slots_stay_apart(vault: VaultState, step: Step, out: Multiset<usize>)
    requires
        state_wf(vault.pool),
        slots_apart(vault.pool, out),
        step matches Step::Release(slot) ==> out.count(slot) > 0,
    ensures
        state_wf(after_step(vault, step).pool),
        slots_apart(after_step(vault, step).pool, out_after(vault, step, out)),
        step_gives(vault, step) matches Some(slot) ==> out.count(slot) == 0 && held(
            after_step(vault, step).pool,
        ).count(slot) == 0,
{
    let pool = vault.pool;
    if slot_available(pool) {
        taking_a_slot(pool);
    }
    match step {
        Step::Release(slot) => {
            giving_a_slot(pool, slot);
        },
        Step::CacheGet(used) => {
            if served_from_cache(pool, used) {
                handing_out(pool, used);
            }
        },
        Step::Seal(len) => {
            sealing_keeps_slots(vault, len);
            if slot_available(pool) {
                lending_a_slot(pool);
            }
        },
        Step::Open(opened, used) => {
            opening(pool, opened, used);
        },
        Step::Close(gone) => {
            evicting(pool, gone);
        },
        _ => {},
    }
    let after = after_step(vault, step).pool;
    let later = out_after(vault, step, out);
    assert forall|slot: usize| #[trigger] held(after).count(slot) + later.count(slot) <= 1 by {
        assert(held(pool).count(slot) + out.count(slot) <= 1);
    }
    if let Some(slot) = step_gives(vault, step) {
        assert(held(pool).count(slot) + out.count(slot) <= 1);
    }
}

/// The slots that are out after a sequence of operations on a vault with none
/// out.
pub open spec fn out_after_steps(vault: VaultState, steps: Seq<Step>) -> Multiset<usize>
    decreases steps.len(),
{
    if steps.len() == 0 {
        Multiset::empty()
    } else {
        let front = steps.drop_last();
        out_after(after_steps(vault, front), steps.last(), out_after_steps(vault, front))
    }
}

/// In these operations only slots that are out come back.
pub open spec fn returns_what_is_out(vault: VaultState, steps: Seq<Step>) -> bool
    decreases steps.len(),
{
    steps.len() == 0 || {
        let front = steps.drop_last();
        &&& returns_what_is_out(vault, front)
        &&& steps.last() matches Step::Release(slot) ==> out_after_steps(vault, front).count(slot) > 0
    }
}

/// Whatever is done with a new vault, the slots that are out at one time differ,
/// and none of them is with the pool.
pub proof fn slots_out_differ(vault: VaultState, steps: Seq<Step>)
    requires
        state_wf(vault.pool),
        vault.pool.free == all_slots(),
        vault.pool.hot.len() == 0,
        returns_what_is_out(vault, steps),
    ensures
        state_wf(after_steps(vault, steps).pool),
        slots_apart(after_steps(vault, steps).pool, out_after_steps(vault, steps)),
    decreases steps.len(),
{
    if steps.len() == 0 {
        new_pool_has_slots_apart(vault.pool);
    } else {
        let front = steps.drop_last();
        slots_out_differ(vault, front);
        slots_stay_apart(
            after_steps(vault, front),
            steps.last(),
            out_after_steps(vault, front),
        );
    }
}

/// How far `to` is ahead of `from` when counting starts over after the largest
/// 64-bit number.
pub open spec fn ahead_by(from: u64, to: u64, k: nat) -> bool {
    (from + k) % 0x1_0000_0000_0000_0000 == to
}

/// The counter of nonces and the number of secrets go up by at most one for each
/// operation.
proof fn counters_advance(vault: VaultState, steps: Seq<Step>) -> (by: (nat, nat))
    ensures
        ahead_by(vault.nonces.counter, after_steps(vault, steps).nonces.counter, by.0),
        ahead_by(vault.next_id, after_steps(vault, steps).next_id, by.1),
        by.0 <= steps.len(),
        by.1 <= steps.len(),
        after_steps(vault, steps).nonces.prefix == vault.nonces.prefix,
    decreases steps.len(),
{
    if steps.len() == 0 {
        (0nat, 0nat)
    } else {
        let by = counters_advance(vault, steps.drop_last());
        let before = after_steps(vault, steps.drop_last());
        let after = after_steps(vault, steps);
        let first: nat = if after.nonces.counter == before.nonces.counter {
            by.0
        } else {
            by.0 + 1
        };
        let second: nat = if after.next_id == before.next_id {
            by.1
        } else {
            by.1 + 1
        };
        (first, second)
    }
}

/// Two secrets sealed with one vault have different numbers, different nonces
/// and so different ciphertexts, even where the secrets are the same, as long as
/// fewer operations than there are 64-bit numbers lie between them.
pub proof fn sealed_secrets_differ(vault: VaultState, first: Seq<u8>, steps: Seq<Step>, second: Seq<u8>)
    requires
        slot_available(vault.pool),
        first.len() <= MAX_MESSAGE_LEN,
        steps.len() < u64::MAX,
    ensures
        ({
            let later = after_steps(after_seal(vault, first.len()), steps);
            &&& sealed(vault, first).id != sealed(later, second).id
            &&& nonce_of(vault.nonces) != nonce_of(later.nonces)
            &&& sealed(vault, first).ciphertext != sealed(later, second).ciphertext
        }),
{
    let start = after_seal(vault, first.len());
    let later = after_steps(start, steps);
    let by = counters_advance(start, steps);
    assert(later.nonces.counter != vault.nonces.counter);
    assert(later.next_id != vault.next_id);
    nonces_differ(vault.nonces, later.nonces);
    let a = nonce_of(vault.nonces);
    let b = nonce_of(later.nonces);
    if sealed(vault, first).ciphertext == sealed(later, second).ciphertext {
        assert(sealed(vault, first).ciphertext.take(a.len() as int) =~= a);
        assert(sealed(later, second).ciphertext.take(b.len() as int) =~= b);
    }
}

} // verus!
