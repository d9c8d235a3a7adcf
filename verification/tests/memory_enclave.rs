use enclave::error::Error;
use enclave::memory::memory_enclave::{MemoryEnclave, Vault};
use enclave::memory::pool::{SLOT_COUNT, SLOT_SIZE};
use enclave::memory::secure_buffer::SecureBuffer;
use enclave::outside::{NONCE_LEN, TAG_LEN};

fn hex(bytes: &[u8]) -> String {
    let mut text = String::new();
    for b in bytes {
        text.push_str(&format!("{b:02x}"));
    }
    text
}

#[test]
fn seal_and_open_roundtrip() {
    let mut vault = Vault::new().unwrap();
    let secret = b"my secret data 1234";
    let enc = MemoryEnclave::seal(secret, &mut vault).unwrap();
    let slot = enc.open(&mut vault).unwrap();
    assert_eq!(&slot.as_slice()[..secret.len()], secret.as_ref());
}

#[test]
fn open_twice_uses_hot_cache() {
    let mut vault = Vault::new().unwrap();
    let secret = b"cached secret";
    let enc = MemoryEnclave::seal(secret, &mut vault).unwrap();
    let s1 = enc.open(&mut vault).unwrap();
    let bytes1 = s1.as_slice()[..secret.len()].to_vec();
    vault.pool_release(s1);
    let s2 = enc.open(&mut vault).unwrap();
    assert_eq!(bytes1, secret.as_ref());
    assert_eq!(&s2.as_slice()[..secret.len()], secret.as_ref());
}

#[test]
fn drop_evicts_hot_cache() {
    let mut vault = Vault::new().unwrap();
    let secret = b"evicted secret";
    let id = {
        let enc = MemoryEnclave::seal(secret, &mut vault).unwrap();
        let slot = enc.open(&mut vault).unwrap();
        vault.pool_release(slot);
        let id = enc.id();
        enc.close(&mut vault);
        id
    };
    assert!(vault.hot_cache_get(id).is_none());
}

#[test]
fn different_enclaves_are_independent() {
    let mut vault = Vault::new().unwrap();
    let enc1 = MemoryEnclave::seal(b"secret one", &mut vault).unwrap();
    let enc2 = MemoryEnclave::seal(b"secret two", &mut vault).unwrap();
    assert_ne!(enc1.id(), enc2.id());
    let s1 = enc1.open(&mut vault).unwrap();
    let s2 = enc2.open(&mut vault).unwrap();
    assert_eq!(&s1.as_slice()[..10], b"secret one");
    assert_eq!(&s2.as_slice()[..10], b"secret two");
    vault.pool_release(s1);
    vault.pool_release(s2);
}

#[test]
fn seal_empty_slice() {
    let mut vault = Vault::new().unwrap();
    let enc = MemoryEnclave::seal(b"", &mut vault).unwrap();
    assert_eq!(enc.plaintext_len(), 0);
    let slot = enc.open(&mut vault).unwrap();
    vault.pool_release(slot);
}

#[test]
fn coffer_view_returns_key_sized_slot() {
    let mut vault = Vault::new().unwrap();
    let slot = vault.coffer_view().unwrap();
    assert_eq!(slot.size(), 32);
}

#[test]
fn pool_acquire_small_uses_slab() {
    let mut vault = Vault::new().unwrap();
    let slot = vault.pool_acquire(16).unwrap();
    assert!(slot.slab_index().is_some());
}

#[test]
fn pool_acquire_large_uses_standalone() {
    let mut vault = Vault::new().unwrap();
    let slot = vault.pool_acquire(8192).unwrap();
    assert!(slot.slab_index().is_none());
}

#[test]
fn seal_open_large() {
    let mut vault = Vault::new().unwrap();
    let plaintext = vec![0xAB_u8; 4096];
    let enc = MemoryEnclave::seal(&plaintext, &mut vault).unwrap();
    let slot = enc.open(&mut vault).unwrap();
    assert_eq!(&slot.as_slice()[..4096], plaintext.as_slice());
}

#[test]
fn tampered_ciphertext_fails() {
    let mut vault = Vault::new().unwrap();
    let plaintext = b"tamper test";
    let enc = MemoryEnclave::seal(plaintext, &mut vault).unwrap();
    let mut ciphertext = enc.ciphertext().to_vec();
    ciphertext[NONCE_LEN] ^= 0xFF;
    let enc = MemoryEnclave::from_parts(enc.id(), ciphertext, enc.plaintext_len());
    let result = enc.open(&mut vault).map(|slot| slot.size());
    assert!(
        matches!(result, Err(Error::DecryptFailed { .. })),
        "expected DecryptFailed, got {result:?}"
    );
}

#[test]
fn truncated_ciphertext_fails() {
    let mut vault = Vault::new().unwrap();
    let enc = MemoryEnclave::seal(b"short", &mut vault).unwrap();
    let truncated = MemoryEnclave::from_parts(enc.id(), vec![0_u8; NONCE_LEN + TAG_LEN - 1], 5);
    let result = truncated.open(&mut vault).map(|slot| slot.size());
    assert!(
        matches!(result, Err(Error::Memory(_))),
        "expected Memory error, got {result:?}"
    );
}

#[test]
fn unique_ids() {
    let mut vault = Vault::new().unwrap();
    let a = MemoryEnclave::seal(b"a", &mut vault).unwrap();
    let b = MemoryEnclave::seal(b"b", &mut vault).unwrap();
    assert_ne!(a.id(), b.id());
}

#[test]
fn seal_buffer_roundtrip() {
    let mut vault = Vault::new().unwrap();
    let secret = b"buffered secret";
    let mut sbuf = SecureBuffer::new(secret.len()).unwrap();
    sbuf.bytes().copy_from_slice(secret);
    let enc = MemoryEnclave::seal_buffer(&mut sbuf, &mut vault).unwrap();
    assert!(sbuf.is_alive());
    let slot = enc.open(&mut vault).unwrap();
    assert_eq!(&slot.as_slice()[..secret.len()], secret);
}

#[test]
fn seal_slot_roundtrip() {
    let mut vault = Vault::new().unwrap();
    let secret = b"slot secret data";
    let mut slot = vault.pool_acquire(secret.len()).unwrap();
    slot.bytes()[..secret.len()].copy_from_slice(secret);
    let enc = MemoryEnclave::seal_slot(&slot, &mut vault).unwrap();
    vault.pool_release(slot);
    let out = enc.open(&mut vault).unwrap();
    assert_eq!(&out.as_slice()[..secret.len()], secret);
}

#[test]
fn debug_does_not_leak_plaintext() {
    let mut vault = Vault::new().unwrap();
    let enc = MemoryEnclave::seal(b"top secret", &mut vault).unwrap();
    let debug = enc.debug_text();
    assert!(!debug.contains("top secret"));
    assert!(debug.contains("MemoryEnclave"));
}

#[test]
fn same_plaintext_different_nonces() {
    let mut vault = Vault::new().unwrap();
    let a = MemoryEnclave::seal(b"same", &mut vault).unwrap();
    let b = MemoryEnclave::seal(b"same", &mut vault).unwrap();
    assert_ne!(a.ciphertext(), b.ciphertext());
}

#[test]
fn plaintext_is_zeroized_after_open() {
    let mut vault = Vault::new().unwrap();
    let secret = b"zeroize test secret";
    let enc = MemoryEnclave::seal(secret, &mut vault).unwrap();
    let slot = enc.open(&mut vault).unwrap();
    assert_eq!(&slot.as_slice()[..secret.len()], secret.as_ref());
}

#[test]
fn open_cache_evicted_on_drop() {
    let mut vault = Vault::new().unwrap();
    let enc = MemoryEnclave::seal(b"test", &mut vault).unwrap();
    let id = enc.id();
    let slot = enc.open(&mut vault).unwrap();
    vault.pool_release(slot);
    enc.close(&mut vault);
    assert!(vault.hot_cache_get(id).is_none());
}

#[test]
fn nonce_prefix_is_nonzero() {
    let mut vault = Vault::new().unwrap();
    let enc1 = MemoryEnclave::seal(b"a", &mut vault).unwrap();
    let enc2 = MemoryEnclave::seal(b"b", &mut vault).unwrap();
    assert_ne!(enc1.ciphertext(), enc2.ciphertext());
}

#[test]
fn known_answer_of_the_cipher() {
    let mut vault = Vault::with_key([0; 32], [0; 4]);
    let enc = MemoryEnclave::seal(&[0_u8; 16], &mut vault).unwrap();
    assert_eq!(&enc.ciphertext()[..NONCE_LEN], [0_u8; 12].as_ref());
    assert_eq!(
        hex(&enc.ciphertext()[NONCE_LEN..]),
        "cea7403d4d606b6e074ec5d3baf39d18d0d1c8a799996bf0265b98b5d48ab919"
    );
    assert_eq!(enc.id(), 1);
    assert_eq!(enc.plaintext_len(), 16);
}

#[test]
fn known_answer_opens_from_its_parts() {
    let mut vault = Vault::with_key([0; 32], [7; 4]);
    let mut blob = vec![0_u8; 12];
    blob.extend_from_slice(&[
        0xce, 0xa7, 0x40, 0x3d, 0x4d, 0x60, 0x6b, 0x6e, 0x07, 0x4e, 0xc5, 0xd3, 0xba, 0xf3, 0x9d,
        0x18, 0xd0, 0xd1, 0xc8, 0xa7, 0x99, 0x99, 0x6b, 0xf0, 0x26, 0x5b, 0x98, 0xb5, 0xd4, 0x8a,
        0xb9, 0x19,
    ]);
    let enc = MemoryEnclave::from_parts(9, blob, 16);
    let slot = enc.open(&mut vault).unwrap();
    assert_eq!(slot.as_slice(), [0_u8; 32].as_ref());
    vault.pool_release(slot);
    assert!(vault.hot_cache_get(9).is_some());
}

#[test]
fn nonces_are_prefix_and_counter() {
    let mut vault = Vault::with_key([1; 32], [0xA1, 0xA2, 0xA3, 0xA4]);
    for n in 0_u8..3 {
        let enc = MemoryEnclave::seal(b"x", &mut vault).unwrap();
        assert_eq!(
            &enc.ciphertext()[..NONCE_LEN],
            [0xA1, 0xA2, 0xA3, 0xA4, n, 0, 0, 0, 0, 0, 0, 0].as_ref()
        );
        assert_eq!(enc.id(), u64::from(n) + 1);
        assert_eq!(enc.ciphertext().len(), NONCE_LEN + 1 + TAG_LEN);
    }
}

#[test]
fn counter_bytes_are_little_endian() {
    let mut vault = Vault::with_key([1; 32], [0; 4]);
    for _ in 0..300 {
        let _ = MemoryEnclave::seal(b"", &mut vault).unwrap();
    }
    let enc = MemoryEnclave::seal(b"", &mut vault).unwrap();
    assert_eq!(&enc.ciphertext()[..NONCE_LEN], [0, 0, 0, 0, 44, 1, 0, 0, 0, 0, 0, 0].as_ref());
}

#[test]
fn two_vaults_do_not_share_a_key() {
    let mut one = Vault::new().unwrap();
    let mut two = Vault::new().unwrap();
    let a = one.coffer_view().unwrap();
    let b = two.coffer_view().unwrap();
    assert_ne!(a.as_slice(), b.as_slice());
    let enc = MemoryEnclave::seal(b"of one", &mut one).unwrap();
    let result = enc.open(&mut two).map(|slot| slot.size());
    assert_eq!(
        result,
        Err(Error::DecryptFailed { detail: "MemoryEnclave::open: authentication failed".into() })
    );
}

#[test]
fn master_key_is_that_of_the_vault() {
    let mut vault = Vault::with_key([0x5A; 32], [0; 4]);
    let slot = vault.coffer_view().unwrap();
    assert_eq!(slot.as_slice(), [0x5A_u8; 32].as_ref());
}

#[test]
fn refused_secrets_say_why() {
    let mut vault = Vault::new().unwrap();
    let short = MemoryEnclave::from_parts(5, vec![], 0);
    assert_eq!(
        short.open(&mut vault).map(|slot| slot.size()),
        Err(Error::Memory("MemoryEnclave::open: ciphertext too short".into()))
    );
    let mut refused = vec![1_u8; NONCE_LEN + TAG_LEN];
    refused[0] = 0;
    let damaged = MemoryEnclave::from_parts(6, refused, 0);
    assert_eq!(
        damaged.open(&mut vault).map(|slot| slot.size()),
        Err(Error::DecryptFailed { detail: "MemoryEnclave::open: authentication failed".into() })
    );
    assert!(vault.hot_cache_get(6).is_none());
}

#[test]
fn every_flipped_bit_is_noticed() {
    let mut vault = Vault::new().unwrap();
    let enc = MemoryEnclave::seal(b"watch", &mut vault).unwrap();
    for i in 0..enc.ciphertext().len() {
        for bit in 0..8 {
            let mut ciphertext = enc.ciphertext().to_vec();
            ciphertext[i] ^= 1 << bit;
            let forged = MemoryEnclave::from_parts(enc.id(), ciphertext, enc.plaintext_len());
            assert!(matches!(forged.open(&mut vault), Err(Error::DecryptFailed { .. })));
        }
    }
    assert!(enc.open(&mut vault).is_ok());
}

#[test]
fn small_secrets_come_in_a_slot_filled_up_with_zeros() {
    let mut vault = Vault::new().unwrap();
    let enc = MemoryEnclave::seal(&[7; 5], &mut vault).unwrap();
    for _ in 0..2 {
        let slot = enc.open(&mut vault).unwrap();
        assert_eq!(slot.size(), SLOT_SIZE);
        assert!(slot.slab_index().is_some());
        assert_eq!(&slot.as_slice()[..5], [7_u8; 5].as_ref());
        assert!(slot.as_slice()[5..].iter().all(|&b| b == 0));
        vault.pool_release(slot);
    }
}

#[test]
fn secret_of_slot_size_and_one_byte_more() {
    let mut vault = Vault::new().unwrap();
    let fits = MemoryEnclave::seal(&[1; SLOT_SIZE], &mut vault).unwrap();
    let slot = fits.open(&mut vault).unwrap();
    assert!(slot.slab_index().is_some());
    assert_eq!(slot.as_slice(), [1_u8; SLOT_SIZE].as_ref());
    vault.pool_release(slot);
    assert!(vault.hot_cache_get(fits.id()).is_some());
    let more = MemoryEnclave::seal(&[2; SLOT_SIZE + 1], &mut vault).unwrap();
    let memory = more.open(&mut vault).unwrap();
    assert!(memory.slab_index().is_none());
    assert_eq!(memory.as_slice(), [2_u8; SLOT_SIZE + 1].as_ref());
    vault.pool_release(memory);
    assert!(vault.hot_cache_get(more.id()).is_none());
}

#[test]
fn released_slots_come_back_zeroed() {
    let mut vault = Vault::new().unwrap();
    let mut held = vec![];
    for _ in 0..SLOT_COUNT {
        let mut slot = vault.pool_acquire(SLOT_SIZE).unwrap();
        assert!(slot.as_slice().iter().all(|&b| b == 0));
        slot.bytes().copy_from_slice(&[0xEE; SLOT_SIZE]);
        held.push(slot);
    }
    let result = vault.pool_acquire(1).map(|slot| slot.size());
    assert_eq!(result, Err(Error::Memory("TieredPool: no slot available".into())));
    for slot in held {
        vault.pool_release(slot);
    }
    for _ in 0..SLOT_COUNT {
        let slot = vault.pool_acquire(SLOT_SIZE).unwrap();
        assert!(slot.as_slice().iter().all(|&b| b == 0));
    }
}

#[test]
fn released_memory_of_its_own_is_zeroed_too() {
    let mut vault = Vault::new().unwrap();
    let mut memory = vault.pool_acquire(100).unwrap();
    memory.bytes().copy_from_slice(&[0xEE; 100]);
    let remains = vault.pool_release(memory).unwrap();
    assert_eq!(remains.as_slice(), [0_u8; 100].as_ref());
    let slot = vault.pool_acquire(10).unwrap();
    assert!(vault.pool_release(slot).is_none());
}

#[test]
fn slots_are_taken_from_the_first_on() {
    let mut vault = Vault::with_key([0; 32], [0; 4]);
    let first = vault.pool_acquire(1).unwrap();
    let second = vault.coffer_view().unwrap();
    assert_eq!(first.slab_index(), Some(0));
    assert_eq!(second.slab_index(), Some(1));
    vault.pool_release(first);
    assert_eq!(vault.pool_acquire(1).unwrap().slab_index(), Some(0));
    assert_eq!(vault.pool_acquire(1).unwrap().slab_index(), Some(2));
}

#[test]
fn slab_slots_are_told_apart() {
    let mut vault = Vault::new().unwrap();
    let mut seen = vec![];
    for _ in 0..SLOT_COUNT {
        let slot = vault.pool_acquire(1).unwrap();
        let index = slot.slab_index().unwrap();
        assert!(index < SLOT_COUNT);
        assert!(!seen.contains(&index));
        seen.push(index);
    }
}

#[test]
fn least_recently_used_secret_gives_its_slot_up() {
    let mut vault = Vault::new().unwrap();
    let old = MemoryEnclave::seal(b"old", &mut vault).unwrap();
    let young = MemoryEnclave::seal(b"young", &mut vault).unwrap();
    let slot = old.open(&mut vault).unwrap();
    vault.pool_release(slot);
    let slot = young.open(&mut vault).unwrap();
    vault.pool_release(slot);
    let slot = old.open(&mut vault).unwrap();
    vault.pool_release(slot);
    let mut held = vec![];
    for _ in 0..SLOT_COUNT - 1 {
        held.push(vault.pool_acquire(1).unwrap());
    }
    vault.pool_release(held.pop().unwrap());
    assert!(vault.hot_cache_get(young.id()).is_none());
    let copy = vault.hot_cache_get(old.id()).unwrap();
    assert_eq!(&copy.as_slice()[..3], b"old");
}

#[test]
fn nothing_works_without_a_slot_and_nothing_is_lost() {
    let mut vault = Vault::new().unwrap();
    let enc = MemoryEnclave::seal(b"waits", &mut vault).unwrap();
    let mut held = vec![];
    for _ in 0..SLOT_COUNT {
        held.push(vault.pool_acquire(1).unwrap());
    }
    let no_slot = Err(Error::Memory("TieredPool: no slot available".into()));
    assert_eq!(enc.open(&mut vault).map(|slot| slot.size()), no_slot);
    assert_eq!(vault.coffer_view().map(|slot| slot.size()), no_slot);
    assert_eq!(MemoryEnclave::seal(b"late", &mut vault).map(|e| e.plaintext_len()), no_slot);
    vault.pool_release(held.pop().unwrap());
    let next = MemoryEnclave::seal(b"next", &mut vault).unwrap();
    assert_eq!(next.id(), enc.id() + 1);
    let slot = enc.open(&mut vault).unwrap();
    assert_eq!(&slot.as_slice()[..5], b"waits");
}

#[test]
fn opening_survives_any_use_of_the_vault_in_between() {
    let mut vault = Vault::new().unwrap();
    let enc = MemoryEnclave::seal(b"stays the same", &mut vault).unwrap();
    for round in 0..200_u32 {
        let other = MemoryEnclave::seal(&round.to_le_bytes(), &mut vault).unwrap();
        let slot = other.open(&mut vault).unwrap();
        assert_eq!(&slot.as_slice()[..4], round.to_le_bytes().as_ref());
        vault.pool_release(slot);
        if round % 3 == 0 {
            other.close(&mut vault);
        }
        let slot = enc.open(&mut vault).unwrap();
        assert_eq!(&slot.as_slice()[..14], b"stays the same");
        vault.pool_release(slot);
    }
}

#[test]
fn log_text_of_an_enclave() {
    let enc = MemoryEnclave::from_parts(1234567890123456789, vec![1, 2, 3], 40);
    assert_eq!(
        enc.debug_text(),
        "MemoryEnclave { id: 1234567890123456789, plaintext_len: 40 }"
    );
    let zero = MemoryEnclave::from_parts(0, vec![], 0);
    assert_eq!(zero.debug_text(), "MemoryEnclave { id: 0, plaintext_len: 0 }");
}

#[test]
fn sealing_a_buffer_freezes_it_and_keeps_its_contents() {
    let mut vault = Vault::new().unwrap();
    let mut buffer = SecureBuffer::new(4).unwrap();
    buffer.bytes().copy_from_slice(&[1, 2, 3, 4]);
    assert!(!buffer.is_frozen());
    assert!(MemoryEnclave::seal_buffer(&mut buffer, &mut vault).is_ok());
    assert!(buffer.is_frozen());
    assert_eq!(buffer.as_slice(), [1_u8, 2, 3, 4].as_ref());
    let again = MemoryEnclave::seal_buffer(&mut buffer, &mut vault).unwrap();
    let slot = again.open(&mut vault).unwrap();
    assert_eq!(&slot.as_slice()[..4], [1_u8, 2, 3, 4].as_ref());
}

#[test]
fn destroyed_buffer_is_not_sealed() {
    let mut vault = Vault::new().unwrap();
    let mut buffer = SecureBuffer::new(4).unwrap();
    buffer.destroy();
    assert_eq!(
        MemoryEnclave::seal_buffer(&mut buffer, &mut vault).map(|e| e.plaintext_len()),
        Err(Error::Memory("SecureBuffer: buffer destroyed".into()))
    );
    assert!(!buffer.is_frozen());
    let next = MemoryEnclave::seal(b"", &mut vault).unwrap();
    assert_eq!(next.id(), 1);
}

#[test]
fn failed_cipher_makes_no_enclave() {
    let mut vault = Vault::with_key([0; 32], [0; 4]);
    assert_eq!(
        MemoryEnclave::from_sealed(vec![0; 12], None, 3, &mut vault).map(|e| e.id()),
        Err(Error::Memory("MemoryEnclave::seal encrypt: aead::Error".into()))
    );
    let enc = MemoryEnclave::from_sealed(vec![9; 12], Some(vec![8; 19]), 3, &mut vault).unwrap();
    assert_eq!(enc.id(), 1);
    assert_eq!(enc.plaintext_len(), 3);
    assert_eq!(enc.ciphertext()[..12], [9; 12]);
    assert_eq!(enc.ciphertext()[12..], [8; 19]);
}

#[test]
fn decrypted_secret_is_delivered_and_cached() {
    let mut vault = Vault::with_key([0; 32], [0; 4]);
    assert_eq!(
        MemoryEnclave::deliver(4, None, &mut vault).map(|slot| slot.size()),
        Err(Error::DecryptFailed { detail: "MemoryEnclave::open: authentication failed".into() })
    );
    assert!(vault.hot_cache_get(4).is_none());
    let slot = MemoryEnclave::deliver(4, Some(vec![1, 2]), &mut vault).unwrap();
    assert_eq!(&slot.as_slice()[..3], [1_u8, 2, 0].as_ref());
    let copy = vault.hot_cache_get(4).unwrap();
    assert_eq!(copy.as_slice(), slot.as_slice());
}
