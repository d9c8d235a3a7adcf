//! Secrets sealed in memory with AES-256-GCM, and the vault that they share.

use crate::error::{is_memory_error, memory_error, Error};
use crate::memory::nonce::{
    after_nonce, nonce_is_prefix_and_counter, nonce_of, successor, NonceSource, NonceState,
    NO_PREFIX, PREFIX_LEN,
};
use crate::memory::pool::{
    all_slots, cache_place, cached, cached_at, evict, give_slot, hand_out, in_slot, insert,
    is_cached, lend_slot, memory_begins_with_the_secret, next_slot, served_from_cache,
    slot_available, state_wf, take_slot, used_secret_becomes_most_recent, PoolSlot, PoolState,
    TieredPool, NO_RANDOM_KEY, NO_SLOT, SLOT_SIZE, TOO_LARGE,
};
use crate::memory::secure_buffer::{copy_prefix, zeros, BufferState, SecureBuffer, DESTROYED};
use crate::outside::{
    delivered, gcm_ciphertext, gcm_decrypt, gcm_encrypt, gcm_plaintext, ZeroizingBytes, KEY_LEN,
    MAX_MESSAGE_LEN, NONCE_LEN, TAG_LEN,
};
use crate::text::{concat, decimal, decimal_exec};
use vstd::prelude::*;
use vstd::slice::slice_subrange;

verus! {

/// What a [`Vault`] is: its pool, its nonces, and the number that the next
/// sealed secret gets.
pub struct VaultState {
    pub pool: PoolState,
    pub nonces: NonceState,
    pub next_id: u64,
}

/// What sealed secrets of one process share.
pub struct Vault {
    pool: TieredPool,
    nonces: NonceSource,
    next_id: u64,
}

impl View for Vault {
    type V = VaultState;

    closed spec fn view(&self) -> VaultState {
        VaultState { pool: self.pool@, nonces: self.nonces@, next_id: self.next_id }
    }
}

impl Vault {
    /// Free slots hold zeros only, and cached secrets stand in slots.
    pub closed spec fn slots_wf(&self) -> bool {
        self.pool.slots_wf()
    }

    /// The pool is sound and the prefix of nonces has its length.
    pub open spec fn wf(&self) -> bool {
        &&& self.slots_wf()
        &&& state_wf(self@.pool)
        &&& self@.nonces.prefix.len() == PREFIX_LEN
    }

    /// A vault with the given master key and prefix of nonces, all slots free.
    pub fn with_key(key: [u8; 32], prefix: [u8; 4]) -> (vault: Self)
        ensures
            vault.wf(),
            vault@ == (VaultState {
                pool: PoolState { key: key@, free: all_slots(), hot: Seq::empty() },
                nonces: NonceState { prefix: prefix@, counter: 0 },
                next_id: 1,
            }),
    {
        Vault {
            pool: TieredPool::with_key(key),
            nonces: NonceSource::with_prefix(prefix),
            next_id: 1,
        }
    }

    /// A vault with a random master key and a random prefix of nonces. Fails
    /// where the operating system delivers no random bytes.
    pub fn new() -> (res: Result<Self, Error>)
        ensures
            res matches Ok(vault) ==> {
                &&& vault.wf()
                &&& vault@.pool.key.len() == KEY_LEN
                &&& vault@.pool == (PoolState {
                    key: vault@.pool.key,
                    free: all_slots(),
                    hot: Seq::empty(),
                })
                &&& delivered(vault@.pool.key)
                &&& vault@.nonces.prefix.len() == PREFIX_LEN
                &&& delivered(vault@.nonces.prefix)
                &&& vault@.nonces.counter == 0
                &&& vault@.next_id == 1
            },
            res matches Err(e) ==> {
                ||| is_memory_error(e, NO_RANDOM_KEY@)
                ||| is_memory_error(e, NO_PREFIX@)
            },
    {
        let pool: TieredPool = match TieredPool::new() {
            Ok(pool) => pool,
            Err(e) => {
                return Err(e);
            },
        };
        match NonceSource::new() {
            Ok(nonces) => Ok(Vault { pool, nonces, next_id: 1 }),
            Err(e) => Err(e),
        }
    }

    /// Hands out zeroed memory for `size` bytes.
    pub fn pool_acquire(&mut self, size: usize) -> (res: Result<PoolSlot, Error>)
        requires
            old(self).wf(),
        ensures
            final(self).wf(),
            res is Ok <==> if size <= SLOT_SIZE {
                slot_available(old(self)@.pool)
            } else {
                size <= isize::MAX
            },
            res matches Ok(slot) ==> {
                &&& slot.wf()
                &&& slot.slab_index_spec() == if size <= SLOT_SIZE {
                    Some(next_slot(old(self)@.pool))
                } else {
                    None
                }
                &&& slot@ == in_slot(zeros(size as nat))
                &&& final(self)@ == if size <= SLOT_SIZE {
                    (VaultState { pool: take_slot(old(self)@.pool), ..old(self)@ })
                } else {
                    old(self)@
                }
            },
            res matches Err(e) ==> {
                &&& final(self)@ == old(self)@
                &&& is_memory_error(
                    e,
                    if size <= SLOT_SIZE {
                        NO_SLOT@
                    } else {
                        TOO_LARGE@
                    },
                )
            },
    {
        self.pool.acquire(size)
    }

    /// Takes memory back, overwritten with zeros. A slot of the slab is free again;
    /// what remains of memory of its own is returned.
    pub fn pool_release(&mut self, slot: PoolSlot) -> (remains: Option<PoolSlot>)
        requires
            old(self).wf(),
            slot.wf(),
        ensures
            final(self).wf(),
            slot.slab_index_spec() matches Some(index) ==> {
                &&& remains is None
                &&& final(self)@ == (VaultState {
                    pool: give_slot(old(self)@.pool, index),
                    ..old(self)@
                })
            },
            slot.slab_index_spec() is None ==> {
                &&& remains matches Some(memory) && memory@ == zeros(slot@.len())
                &&& final(self)@ == old(self)@
            },
    {
        self.pool.release(slot)
    }

    /// Hands out a copy of the master key.
    pub fn coffer_view(&mut self) -> (res: Result<PoolSlot, Error>)
        requires
            old(self).wf(),
        ensures
            final(self).wf(),
            res is Ok <==> slot_available(old(self)@.pool),
            res matches Ok(slot) ==> {
                &&& slot.wf()
                &&& slot.slab_index_spec() == Some(next_slot(old(self)@.pool))
                &&& slot@ == old(self)@.pool.key
                &&& final(self)@ == (VaultState { pool: take_slot(old(self)@.pool), ..old(self)@ })
            },
            res matches Err(e) ==> {
                &&& final(self)@ == old(self)@
                &&& is_memory_error(e, NO_SLOT@)
            },
    {
        self.pool.coffer_view()
    }

    /// A copy of the cached secret `id`, where there is one and a slot is free.
    pub fn hot_cache_get(&mut self, id: u64) -> (res: Option<PoolSlot>)
        requires
            old(self).wf(),
        ensures
            final(self).wf(),
            res is Some <==> served_from_cache(old(self)@.pool, id),
            res matches Some(slot) ==> {
                &&& slot.wf()
                &&& slot.slab_index_spec() == Some(next_slot(old(self)@.pool))
                &&& slot@ == in_slot(cached(old(self)@.pool, id))
                &&& final(self)@ == (VaultState {
                    pool: hand_out(old(self)@.pool, id),
                    ..old(self)@
                })
            },
            res is None ==> final(self)@ == old(self)@,
    {
        self.pool.hot_cache_get(id)
    }
}

/// Says that a sealed secret is too short to hold a nonce and a tag.
pub const TOO_SHORT: &'static str = "MemoryEnclave::open: ciphertext too short";

/// Says that a sealed secret did not authenticate.
pub const NOT_AUTHENTIC: &'static str = "MemoryEnclave::open: authentication failed";

/// Says that the cipher refused to encrypt.
pub const NOT_SEALED: &'static str = "MemoryEnclave::seal encrypt: aead::Error";

/// What a [`MemoryEnclave`] is: its number, the nonce with the ciphertext and
/// its tag behind it, and the length of the secret.
pub struct EnclaveState {
    pub id: u64,
    pub ciphertext: Seq<u8>,
    pub plaintext_len: usize,
}

/// A secret sealed in memory with AES-256-GCM.
///
/// The secret is encrypted under the master key of a [`Vault`]. After the first
/// successful `open` it also stands in the cache of the vault's pool, until the
/// enclave is closed or the least recently used secret has to give its slot up.
/// A secret that must not stay in memory is best closed right after use.
pub struct MemoryEnclave {
    id: u64,
    ciphertext: Vec<u8>,
    plaintext_len: usize,
}

impl View for MemoryEnclave {
    type V = EnclaveState;

    closed spec fn view(&self) -> EnclaveState {
        EnclaveState {
            id: self.id,
            ciphertext: self.ciphertext@,
            plaintext_len: self.plaintext_len,
        }
    }
}

/// What the vault makes of a secret: the next number, and the next nonce with
/// the ciphertext behind it.
pub open spec fn sealed(vault: VaultState, plaintext: Seq<u8>) -> EnclaveState {
    let nonce = nonce_of(vault.nonces);
    EnclaveState {
        id: vault.next_id,
        ciphertext: nonce + gcm_ciphertext(vault.pool.key, nonce, plaintext),
        plaintext_len: plaintext.len() as usize,
    }
}

/// The vault after a secret of this length is sealed, or could not be: without a
/// slot for the key nothing happens, and a secret too long for the cipher uses
/// up a nonce only.
pub open spec fn after_seal(vault: VaultState, len: nat) -> VaultState {
    if slot_available(vault.pool) {
        VaultState {
            pool: lend_slot(vault.pool),
            nonces: after_nonce(vault.nonces),
            next_id: if len <= MAX_MESSAGE_LEN {
                successor(vault.next_id)
            } else {
                vault.next_id
            },
        }
    } else {
        vault
    }
}

/// What sealing a secret with this vault gives.
pub open spec fn seals(vault: VaultState, plaintext: Seq<u8>, res: Result<MemoryEnclave, Error>) -> bool {
    if !slot_available(vault.pool) {
        res matches Err(e) && is_memory_error(e, NO_SLOT@)
    } else if plaintext.len() > MAX_MESSAGE_LEN {
        res matches Err(e) && is_memory_error(e, NOT_SEALED@)
    } else {
        res matches Ok(enclave) && {
            &&& enclave@ == sealed(vault, plaintext)
            &&& opens_to(vault.pool.key, enclave@.ciphertext, plaintext)
        }
    }
}

/// The secret in a nonce and a ciphertext behind it, if the tag fits.
pub open spec fn decrypted(key: Seq<u8>, ciphertext: Seq<u8>) -> Option<Seq<u8>> {
    gcm_plaintext(key, ciphertext.take(NONCE_LEN as int), ciphertext.skip(NONCE_LEN as int))
}

/// The ciphertext is long enough and decrypts to `plaintext`.
pub open spec fn opens_to(key: Seq<u8>, ciphertext: Seq<u8>, plaintext: Seq<u8>) -> bool {
    &&& ciphertext.len() == NONCE_LEN + TAG_LEN + plaintext.len()
    &&& decrypted(key, ciphertext) == Some(plaintext)
}

/// The ciphertext is what encrypting its own secret under its own nonce gives,
/// where that secret is not longer than the cipher encrypts.
pub open spec fn authentic(key: Seq<u8>, ciphertext: Seq<u8>) -> bool {
    decrypted(key, ciphertext) matches Some(secret) && {
        &&& ciphertext.len() == NONCE_LEN + TAG_LEN + secret.len()
        &&& secret.len() <= MAX_MESSAGE_LEN ==> ciphertext == ciphertext.take(NONCE_LEN as int)
            + gcm_ciphertext(key, ciphertext.take(NONCE_LEN as int), secret)
    }
}

/// What opening a sealed secret gives.
pub enum OpenResult {
    /// Memory with these contents: a slot of the slab, or memory of its own.
    Contents(Seq<u8>, Option<usize>),
    /// There is no room for a nonce and a tag.
    TooShort,
    /// No slot can be had.
    NoSlot,
    /// The tag does not fit.
    NotAuthentic,
    /// The secret is larger than an allocation can be.
    TooLarge,
}

/// What handing out a decrypted secret gives.
pub open spec fn deliver_result(pool: PoolState, id: u64, plaintext: Option<Seq<u8>>) -> OpenResult {
    match plaintext {
        None => OpenResult::NotAuthentic,
        Some(secret) => if secret.len() <= SLOT_SIZE {
            if slot_available(insert(pool, id, secret)) {
                OpenResult::Contents(in_slot(secret), Some(next_slot(insert(pool, id, secret))))
            } else {
                OpenResult::NoSlot
            }
        } else if secret.len() <= isize::MAX {
            OpenResult::Contents(secret, None)
        } else {
            OpenResult::TooLarge
        },
    }
}

/// The pool after a decrypted secret is handed out: it is cached first, and
/// leaves the cache again where no memory for it can be had.
pub open spec fn deliver_state(pool: PoolState, id: u64, plaintext: Option<Seq<u8>>) -> PoolState {
    match plaintext {
        None => pool,
        Some(secret) => {
            let after = insert(pool, id, secret);
            if deliver_result(pool, id, plaintext) !is Contents {
                evict(after, id)
            } else if secret.len() <= SLOT_SIZE {
                take_slot(after)
            } else {
                after
            }
        },
    }
}

/// What opening the secret `id` with this ciphertext gives.
pub open spec fn open_result(pool: PoolState, id: u64, ciphertext: Seq<u8>) -> OpenResult {
    if served_from_cache(pool, id) {
        OpenResult::Contents(in_slot(cached(pool, id)), Some(next_slot(pool)))
    } else if ciphertext.len() < NONCE_LEN + TAG_LEN {
        OpenResult::TooShort
    } else if !slot_available(pool) {
        OpenResult::NoSlot
    } else {
        deliver_result(lend_slot(pool), id, decrypted(pool.key, ciphertext))
    }
}

/// The pool after the secret `id` with this ciphertext is opened, or could not
/// be.
pub open spec fn open_state(pool: PoolState, id: u64, ciphertext: Seq<u8>) -> PoolState {
    if served_from_cache(pool, id) {
        hand_out(pool, id)
    } else if ciphertext.len() < NONCE_LEN + TAG_LEN || !slot_available(pool) {
        pool
    } else {
        deliver_state(lend_slot(pool), id, decrypted(pool.key, ciphertext))
    }
}

/// The outcome of a call is this result.
pub open spec fn shows(res: Result<PoolSlot, Error>, expected: OpenResult) -> bool {
    match expected {
        OpenResult::Contents(bytes, slab_index) => res matches Ok(slot) && {
            &&& slot@ == bytes
            &&& slot.wf()
            &&& slot.slab_index_spec() == slab_index
        },
        OpenResult::TooShort => res matches Err(e) && is_memory_error(e, TOO_SHORT@),
        OpenResult::NoSlot => res matches Err(e) && is_memory_error(e, NO_SLOT@),
        OpenResult::NotAuthentic => res matches Err(Error::DecryptFailed { detail })
            && detail@ == NOT_AUTHENTIC@,
        OpenResult::TooLarge => res matches Err(e) && is_memory_error(e, TOO_LARGE@),
    }
}

/// The text that stands for an enclave in logs: its number and the length of the
/// secret, nothing of the secret itself.
pub open spec fn enclave_text(id: u64, plaintext_len: usize) -> Seq<char> {
    "MemoryEnclave { id: "@ + decimal(id as nat) + ", plaintext_len: "@ + decimal(
        plaintext_len as nat,
    ) + " }"@
}

impl MemoryEnclave {
    /// An enclave of the given parts.
    pub fn from_parts(id: u64, ciphertext: Vec<u8>, plaintext_len: usize) -> (enclave: Self)
        ensures
            enclave@ == (EnclaveState { id, ciphertext: ciphertext@, plaintext_len }),
    {
        MemoryEnclave { id, ciphertext, plaintext_len }
    }

    /// Makes an enclave of what the cipher returned for a secret, under the next
    /// number of the vault; nothing where the cipher failed.
    pub fn from_sealed(
        nonce: Vec<u8>,
        ciphertext: Option<Vec<u8>>,
        plaintext_len: usize,
        vault: &mut Vault,
    ) -> (res: Result<Self, Error>)
        requires
            old(vault).wf(),
            ciphertext matches Some(c) ==> nonce@.len() + c@.len() <= isize::MAX,
        ensures
            final(vault).wf(),
            ciphertext matches Some(c) ==> {
                &&& res matches Ok(enclave) && enclave@ == (EnclaveState {
                    id: old(vault)@.next_id,
                    ciphertext: nonce@ + c@,
                    plaintext_len,
                })
                &&& final(vault)@ == (VaultState {
                    next_id: successor(old(vault)@.next_id),
                    ..old(vault)@
                })
            },
            ciphertext is None ==> {
                &&& res matches Err(e) && is_memory_error(e, NOT_SEALED@)
                &&& final(vault)@ == old(vault)@
            },
    {
        match ciphertext {
            None => Err(memory_error(NOT_SEALED)),
            Some(ciphertext) => {
                let mut blob: Vec<u8> = nonce;
                let mut tail: Vec<u8> = ciphertext;
                blob.append(&mut tail);
                let id: u64 = vault.next_id;
                vault.next_id = id.wrapping_add(1);
                Ok(MemoryEnclave { id, ciphertext: blob, plaintext_len })
            },
        }
    }

    fn do_seal(plaintext: &[u8], vault: &mut Vault) -> (res: Result<Self, Error>)
        requires
            old(vault).wf(),
            plaintext@.len() + NONCE_LEN + TAG_LEN <= isize::MAX,
        ensures
            final(vault).wf(),
            seals(old(vault)@, plaintext@, res),
            final(vault)@ == after_seal(old(vault)@, plaintext@.len()),
    {
        let key: PoolSlot = match vault.pool.coffer_view() {
            Ok(key) => key,
            Err(e) => {
                return Err(e);
            },
        };
        let nonce: Vec<u8> = vault.nonces.next_nonce();
        let ciphertext: Option<Vec<u8>> = gcm_encrypt(key.as_slice(), nonce.as_slice(), plaintext);
        let _ = vault.pool.release(key);
        let ghost behind = gcm_ciphertext(old(vault)@.pool.key, nonce@, plaintext@);
        let ghost front = nonce@;
        let res: Result<Self, Error> = Self::from_sealed(nonce, ciphertext, plaintext.len(), vault);
        proof {
            assert((front + behind).take(NONCE_LEN as int) =~= front);
            assert((front + behind).skip(NONCE_LEN as int) =~= behind);
        }
        res
    }

    /// Seals a secret under the master key of the vault.
    ///
    /// The bound on the length keeps nonce, ciphertext and tag within what a
    /// vector can hold.
    pub fn seal(plaintext: &[u8], vault: &mut Vault) -> (res: Result<Self, Error>)
        requires
            old(vault).wf(),
            plaintext@.len() + NONCE_LEN + TAG_LEN <= isize::MAX,
        ensures
            final(vault).wf(),
            seals(old(vault)@, plaintext@, res),
            final(vault)@ == after_seal(old(vault)@, plaintext@.len()),
    {
        Self::do_seal(plaintext, vault)
    }

    /// Seals the contents of a buffer, which is frozen afterwards. A destroyed
    /// buffer is refused.
    pub fn seal_buffer(buffer: &mut SecureBuffer, vault: &mut Vault) -> (res: Result<Self, Error>)
        requires
            old(vault).wf(),
            old(buffer)@.bytes.len() + NONCE_LEN + TAG_LEN <= isize::MAX,
        ensures
            final(vault).wf(),
            old(buffer)@.alive ==> {
                &&& seals(old(vault)@, old(buffer)@.bytes, res)
                &&& final(vault)@ == after_seal(old(vault)@, old(buffer)@.bytes.len())
                &&& final(buffer)@ == (BufferState { frozen: true, ..old(buffer)@ })
            },
            !old(buffer)@.alive ==> {
                &&& res matches Err(e) && is_memory_error(e, DESTROYED@)
                &&& final(vault)@ == old(vault)@
                &&& final(buffer)@ == old(buffer)@
            },
    {
        match buffer.melt() {
            Ok(()) => {},
            Err(e) => {
                return Err(e);
            },
        }
        let res: Result<Self, Error> = Self::do_seal(buffer.as_slice(), vault);
        let _ = buffer.freeze();
        res
    }

    /// Seals the contents of memory of the pool; the memory itself stays with
    /// the caller.
    pub fn seal_slot(slot: &PoolSlot, vault: &mut Vault) -> (res: Result<Self, Error>)
        requires
            old(vault).wf(),
            slot@.len() + NONCE_LEN + TAG_LEN <= isize::MAX,
        ensures
            final(vault).wf(),
            seals(old(vault)@, slot@, res),
            final(vault)@ == after_seal(old(vault)@, slot@.len()),
    {
        Self::do_seal(slot.as_slice(), vault)
    }

    /// Hands out what the cipher read from the sealed secret `id`, and caches it
    /// for the next time.
    pub fn deliver(id: u64, plaintext: Option<Vec<u8>>, vault: &mut Vault) -> (res: Result<
        PoolSlot,
        Error,
    >)
        requires
            old(vault).wf(),
        ensures
            final(vault).wf(),
            ({
                let secret = match plaintext {
                    Some(p) => Some(p@),
                    None => None,
                };
                &&& shows(res, deliver_result(old(vault)@.pool, id, secret))
                &&& final(vault)@ == (VaultState {
                    pool: deliver_state(old(vault)@.pool, id, secret),
                    ..old(vault)@
                })
            }),
    {
        let secret: ZeroizingBytes = match plaintext {
            Some(plaintext) => ZeroizingBytes::new(plaintext),
            None => {
                return Err(Error::DecryptFailed { detail: NOT_AUTHENTIC.to_owned() });
            },
        };
        let bytes: &[u8] = secret.as_slice();
        vault.pool.hot_cache_insert(id, bytes);
        let mut slot: PoolSlot = match vault.pool.acquire(bytes.len()) {
            Ok(slot) => slot,
            Err(e) => {
                vault.pool.hot_cache_evict(id);
                return Err(e);
            },
        };
        copy_prefix(slot.bytes(), bytes);
        assert(slot@ =~= in_slot(bytes@));
        Ok(slot)
    }

    /// Decrypts the secret into memory of the pool.
    ///
    /// Where the secret is cached and a slot is free, the copy comes from the
    /// cache without decryption. Otherwise the ciphertext must authenticate: it
    /// is then exactly what sealing the secret under this nonce gives.
    pub fn open(&self, vault: &mut Vault) -> (res: Result<PoolSlot, Error>)
        requires
            old(vault).wf(),
        ensures
            final(vault).wf(),
            shows(res, open_result(old(vault)@.pool, self@.id, self@.ciphertext)),
            final(vault)@ == (VaultState {
                pool: open_state(old(vault)@.pool, self@.id, self@.ciphertext),
                ..old(vault)@
            }),
            res is Ok && !served_from_cache(old(vault)@.pool, self@.id) ==> authentic(
                old(vault)@.pool.key,
                self@.ciphertext,
            ),
    {
        if let Some(slot) = vault.pool.hot_cache_get(self.id) {
            return Ok(slot);
        }
        if self.ciphertext.len() < NONCE_LEN + TAG_LEN {
            return Err(memory_error(TOO_SHORT));
        }
        let key: PoolSlot = match vault.pool.coffer_view() {
            Ok(key) => key,
            Err(e) => {
                return Err(e);
            },
        };
        let blob: &[u8] = self.ciphertext.as_slice();
        let nonce: &[u8] = slice_subrange(blob, 0, NONCE_LEN);
        let tail: &[u8] = slice_subrange(blob, NONCE_LEN, blob.len());
        assert(nonce@ =~= blob@.take(NONCE_LEN as int));
        assert(tail@ =~= blob@.skip(NONCE_LEN as int));
        assert(blob@ =~= nonce@ + tail@);
        let plaintext: Option<Vec<u8>> = gcm_decrypt(key.as_slice(), nonce, tail);
        let _ = vault.pool.release(key);
        Self::deliver(self.id, plaintext, vault)
    }

    /// The length of the secret.
    pub fn plaintext_len(&self) -> (len: usize)
        ensures
            len == self@.plaintext_len,
    {
        self.plaintext_len
    }

    /// The number of the secret.
    pub fn id(&self) -> (id: u64)
        ensures
            id == self@.id,
    {
        self.id
    }

    /// The nonce with the ciphertext and its tag behind it.
    pub fn ciphertext(&self) -> (ciphertext: &[u8])
        ensures
            ciphertext@ == self@.ciphertext,
    {
        self.ciphertext.as_slice()
    }

    /// Gives the enclave up: its secret leaves the cache.
    pub fn close(self, vault: &mut Vault)
        requires
            old(vault).wf(),
        ensures
            final(vault).wf(),
            final(vault)@ == (VaultState { pool: evict(old(vault)@.pool, self@.id), ..old(vault)@ }),
    {
        vault.pool.hot_cache_evict(self.id);
    }

    /// The text that stands for the enclave in logs.
    pub fn debug_text(&self) -> (text: String)
        ensures
            text@ == enclave_text(self@.id, self@.plaintext_len),
    {
        let id: String = decimal_exec(self.id);
        let len: String = decimal_exec(self.plaintext_len as u64);
        let front: String = concat("MemoryEnclave { id: ", id.as_str());
        let middle: String = concat(front.as_str(), ", plaintext_len: ");
        let back: String = concat(middle.as_str(), len.as_str());
        concat(back.as_str(), " }")
    }
}

/// Whoever opens a secret that authenticates, or is cached as what it is, gets
/// memory that begins with the secret, byte for byte, and holds zeros behind it:
/// thirty-two bytes of the slab for a secret of at most that size, and for a
/// longer one memory of its own that is the secret and nothing else.
pub proof fn opened_memory_is_the_secret(
    pool: PoolState,
    id: u64,
    ciphertext: Seq<u8>,
    secret: Seq<u8>,
    res: Result<PoolSlot, Error>,
)
    requires
        state_wf(pool),
        pool.free.len() > 0 || pool.hot.len() > 0,
        ciphertext.len() == 28 + secret.len(),
        gcm_plaintext(pool.key, ciphertext.take(12), ciphertext.skip(12)) == Some(secret),
        secret.len() <= isize::MAX,
        is_cached(pool, id) ==> cached(pool, id) == secret,
        shows(res, open_result(pool, id, ciphertext)),
    ensures
        res matches Ok(slot) && {
            &&& slot@.len() >= secret.len()
            &&& slot@.take(secret.len() as int) == secret
            &&& forall|i: int| 0 <= i < secret.len() ==> #[trigger] slot@[i] == secret[i]
            &&& forall|i: int| secret.len() <= i < slot@.len() ==> #[trigger] slot@[i] == 0u8
            &&& secret.len() <= 32 ==> slot@.len() == 32 && slot.slab_index_spec() is Some
            &&& is_cached(pool, id) || secret.len() <= 32 || (slot@ == secret
                && slot.slab_index_spec() is None)
        },
{
    memory_begins_with_the_secret(secret);
    if !served_from_cache(pool, id) {
        lemma_delivers(lend_slot(pool), id, secret);
    }
    let slot = res->Ok_0;
    if secret.len() > 32 && !served_from_cache(pool, id) {
        assert(slot@.take(secret.len() as int) =~= secret);
    }
}

proof fn lemma_delivers(pool: PoolState, id: u64, secret: Seq<u8>)
    requires
        pool.free.len() > 0,
    ensures
        secret.len() <= SLOT_SIZE ==> slot_available(insert(pool, id, secret)),
{
    let without = evict(pool, id);
    assert(without.free.len() > 0);
}

/// A decrypted secret is handed out as it is: memory that begins with it, byte
/// for byte, and holds zeros behind it. One that did not decrypt is refused.
pub proof fn delivered_memory_is_the_secret(
    pool: PoolState,
    id: u64,
    plaintext: Option<Seq<u8>>,
    res: Result<PoolSlot, Error>,
)
    requires
        pool.free.len() > 0,
        shows(res, deliver_result(pool, id, plaintext)),
    ensures
        plaintext is None ==> (res matches Err(Error::DecryptFailed { detail }) && detail@
            == "MemoryEnclave::open: authentication failed"@),
        plaintext matches Some(secret) ==> if secret.len() <= isize::MAX {
            res matches Ok(slot) && {
                &&& slot@.take(secret.len() as int) == secret
                &&& forall|i: int| 0 <= i < secret.len() ==> #[trigger] slot@[i] == secret[i]
                &&& forall|i: int| secret.len() <= i < slot@.len() ==> #[trigger] slot@[i] == 0u8
                &&& secret.len() <= 32 ==> slot@.len() == 32 && slot.slab_index_spec() is Some
                &&& secret.len() > 32 ==> slot@ == secret && slot.slab_index_spec() is None
            }
        } else {
            res matches Err(Error::Memory(text)) && text@ == "TieredPool: size too large"@
        },
{
    if let Some(secret) = plaintext {
        memory_begins_with_the_secret(secret);
        lemma_delivers(pool, id, secret);
        if secret.len() <= isize::MAX && secret.len() > 32 {
            assert(secret.take(secret.len() as int) =~= secret);
        }
    }
}

/// What is sealed is the nonce of the vault, its prefix and its counter in eight
/// bytes, and behind it the secret itself encrypted under the master key and that
/// nonce. It decrypts to the secret, and carries the vault's next number and the
/// secret's length.
pub proof fn sealed_is_nonce_and_encrypted_secret(
    vault: VaultState,
    secret: Seq<u8>,
    res: Result<MemoryEnclave, Error>,
)
    requires
        vault.pool.free.len() > 0 || vault.pool.hot.len() > 0,
        vault.nonces.prefix.len() == 4,
        secret.len() <= 0x10_0000_0000,
        secret.len() <= usize::MAX,
        seals(vault, secret, res),
    ensures
        res matches Ok(enclave) && {
            let blob = enclave@.ciphertext;
            &&& blob.len() == 12 + secret.len() + 16
            &&& blob.take(4) == vault.nonces.prefix
            &&& vault.nonces.counter == blob[4] + 0x100 * blob[5] + 0x1_0000 * blob[6] + 0x100_0000
                * blob[7] + 0x1_0000_0000 * blob[8] + 0x100_0000_0000 * blob[9] + 0x1_0000_0000_0000
                * blob[10] + 0x100_0000_0000_0000 * blob[11]
            &&& blob.skip(12) == gcm_ciphertext(vault.pool.key, blob.take(12), secret)
            &&& gcm_plaintext(vault.pool.key, blob.take(12), blob.skip(12)) == Some(secret)
            &&& enclave@.id == vault.next_id
            &&& enclave@.plaintext_len == secret.len()
        },
{
    nonce_is_prefix_and_counter(vault.nonces);
    let nonce = nonce_of(vault.nonces);
    let blob = res->Ok_0@.ciphertext;
    assert(blob.take(12) =~= nonce);
    assert(blob.skip(12) =~= gcm_ciphertext(vault.pool.key, nonce, secret));
    assert(blob.take(4) =~= nonce.take(4));
    assert forall|i: int| 0 <= i < 8 implies nonce.skip(4)[i] == #[trigger] blob[i + 4] by {}
    assert(nonce.skip(4)[0] == blob[4] && nonce.skip(4)[1] == blob[5] && nonce.skip(4)[2] == blob[6]
        && nonce.skip(4)[3] == blob[7] && nonce.skip(4)[4] == blob[8] && nonce.skip(4)[5] == blob[9]
        && nonce.skip(4)[6] == blob[10] && nonce.skip(4)[7] == blob[11]);
}

/// Without a slot for the key nothing is sealed and nothing changes. A secret
/// longer than the cipher takes is refused and uses up a nonce. Any other gets a
/// number of its own. Key and prefix never change.
pub proof fn sealing_counts_nonces_and_numbers(
    vault: VaultState,
    secret: Seq<u8>,
    res: Result<MemoryEnclave, Error>,
)
    requires
        vault.nonces.prefix.len() == 4,
        seals(vault, secret, res),
    ensures
        vault.pool.free.len() == 0 && vault.pool.hot.len() == 0 ==> {
            &&& res matches Err(Error::Memory(text)) && text@ == "TieredPool: no slot available"@
            &&& after_seal(vault, secret.len()) == vault
        },
        vault.pool.free.len() > 0 || vault.pool.hot.len() > 0 ==> {
            let after = after_seal(vault, secret.len());
            &&& after.nonces.counter as int == (vault.nonces.counter + 1) % 0x1_0000_0000_0000_0000
            &&& secret.len() <= 0x10_0000_0000 ==> res is Ok && after.next_id as int == (vault.next_id
                + 1) % 0x1_0000_0000_0000_0000
            &&& secret.len() > 0x10_0000_0000 ==> after.next_id == vault.next_id && (res matches Err(
                Error::Memory(text),
            ) && text@ == "MemoryEnclave::seal encrypt: aead::Error"@)
        },
        after_seal(vault, secret.len()).pool.key == vault.pool.key,
        after_seal(vault, secret.len()).nonces.prefix == vault.nonces.prefix,
{
    nonce_is_prefix_and_counter(vault.nonces);
    nonce_is_prefix_and_counter(NonceState { counter: vault.next_id, ..vault.nonces });
}

/// Sealing while slots are free leaves the pool as it was; without a free slot the
/// secret that was used longest ago leaves the cache, and its slot is free then.
pub proof fn sealing_touches_cache_only_without_free_slots(vault: VaultState, len: nat)
    ensures
        vault.pool.free.len() > 0 ==> after_seal(vault, len).pool == vault.pool,
        vault.pool.free.len() == 0 && vault.pool.hot.len() > 0 ==> {
            let after = after_seal(vault, len).pool;
            &&& after.hot == vault.pool.hot.subrange(1, vault.pool.hot.len() as int)
            &&& after.free == seq![vault.pool.hot[0].slot]
        },
{
    if slot_available(vault.pool) {
        let after = after_seal(vault, len).pool;
        if vault.pool.free.len() > 0 {
            assert(after.free =~= vault.pool.free);
        } else {
            assert(after.free =~= seq![vault.pool.hot[0].slot]);
        }
    }
}

/// What is refused when nothing is cached for a secret, and why: fewer than
/// twenty-eight bytes are too short, then a slot for the key is needed, and then
/// the tag has to fit.
pub proof fn refusals_of_opening(
    pool: PoolState,
    id: u64,
    ciphertext: Seq<u8>,
    res: Result<PoolSlot, Error>,
)
    requires
        !is_cached(pool, id),
        shows(res, open_result(pool, id, ciphertext)),
    ensures
        ciphertext.len() < 28 ==> (res matches Err(Error::Memory(text)) && text@
            == "MemoryEnclave::open: ciphertext too short"@),
        ciphertext.len() >= 28 && pool.free.len() == 0 && pool.hot.len() == 0 ==> (res matches Err(
            Error::Memory(text),
        ) && text@ == "TieredPool: no slot available"@),
        ciphertext.len() >= 28 && (pool.free.len() > 0 || pool.hot.len() > 0) && gcm_plaintext(
            pool.key,
            ciphertext.take(12),
            ciphertext.skip(12),
        ) is None ==> (res matches Err(Error::DecryptFailed { detail }) && detail@
            == "MemoryEnclave::open: authentication failed"@),
        res is Ok ==> ciphertext.len() >= 28 && gcm_plaintext(
            pool.key,
            ciphertext.take(12),
            ciphertext.skip(12),
        ) is Some,
{
}

/// A cached secret with a slot free is handed out whatever the ciphertext, as the
/// cache holds it.
pub proof fn cached_secret_is_handed_out(
    pool: PoolState,
    id: u64,
    ciphertext: Seq<u8>,
    res: Result<PoolSlot, Error>,
)
    requires
        state_wf(pool),
        is_cached(pool, id),
        pool.free.len() > 0,
        shows(res, open_result(pool, id, ciphertext)),
    ensures
        res matches Ok(slot) && {
            let secret = cached(pool, id);
            &&& slot@.len() == 32
            &&& slot@.take(secret.len() as int) == secret
            &&& forall|i: int| secret.len() <= i < 32 ==> #[trigger] slot@[i] == 0u8
            &&& slot.slab_index_spec() == Some(pool.free.last())
        },
        open_state(pool, id, ciphertext).free == pool.free.drop_last(),
        open_state(pool, id, ciphertext).hot.len() == pool.hot.len(),
        open_state(pool, id, ciphertext).hot.last().id == id,
{
    assert(cached_at(pool, id, cache_place(pool, id)));
    memory_begins_with_the_secret(cached(pool, id));
    used_secret_becomes_most_recent(pool, id, cached(pool, id));
}

/// The log text of an enclave is made of its number and the secret's length: two
/// enclaves that agree in both read the same, whatever they hold.
pub proof fn log_text_is_number_and_length(id: u64, plaintext_len: usize)
    ensures
        ({
            let number = "MemoryEnclave { id: "@ + decimal(id as nat);
            let length = ", plaintext_len: "@ + decimal(plaintext_len as nat);
            enclave_text(id, plaintext_len) == (number + length).push(' ').push('}')
        }),
{
    reveal_strlit(" }");
    let number = "MemoryEnclave { id: "@ + decimal(id as nat);
    let length = ", plaintext_len: "@ + decimal(plaintext_len as nat);
    assert(enclave_text(id, plaintext_len) =~= (number + length).push(' ').push('}'));
}

/// A lent slot leaves the pool as it was while one is free; otherwise it is that of
/// the secret used longest ago, which leaves the cache.
pub proof fn lending_touches_cache_only_without_free_slots(pool: PoolState)
    requires
        slot_available(pool),
    ensures
        pool.free.len() > 0 ==> lend_slot(pool) == pool,
        pool.free.len() == 0 ==> lend_slot(pool) == (PoolState {
            key: pool.key,
            free: seq![pool.hot[0].slot],
            hot: pool.hot.subrange(1, pool.hot.len() as int),
        }),
{
    if pool.free.len() > 0 {
        assert(lend_slot(pool).free =~= pool.free);
    } else {
        assert(lend_slot(pool).free =~= seq![pool.hot[0].slot]);
    }
}

/// What opening without the cache does to the pool: after the slot for the key
/// came back, a secret that fits into a slot is cached and one slot is handed out.
/// A longer one, and one that does not authenticate, leaves the pool alone; so
/// does a ciphertext that is too short, or a pool without a slot.
pub proof fn opening_caches_what_fits(pool: PoolState, id: u64, ciphertext: Seq<u8>, secret: Seq<u8>)
    requires
        !served_from_cache(pool, id),
    ensures
        ciphertext.len() < 28 || (pool.free.len() == 0 && pool.hot.len() == 0) ==> open_state(
            pool,
            id,
            ciphertext,
        ) == pool,
        ciphertext.len() >= 28 && slot_available(pool) && gcm_plaintext(
            pool.key,
            ciphertext.take(12),
            ciphertext.skip(12),
        ) is None ==> open_state(pool, id, ciphertext) == lend_slot(pool),
        ciphertext.len() >= 28 && slot_available(pool) && gcm_plaintext(
            pool.key,
            ciphertext.take(12),
            ciphertext.skip(12),
        ) == Some(secret) && secret.len() <= 32 ==> open_state(pool, id, ciphertext) == take_slot(
            insert(lend_slot(pool), id, secret),
        ),
        ciphertext.len() >= 28 && slot_available(pool) && gcm_plaintext(
            pool.key,
            ciphertext.take(12),
            ciphertext.skip(12),
        ) == Some(secret) && 32 < secret.len() <= isize::MAX ==> open_state(pool, id, ciphertext)
            == lend_slot(pool),
{
    if slot_available(pool) {
        lemma_delivers(lend_slot(pool), id, secret);
    }
}

} // verus!
