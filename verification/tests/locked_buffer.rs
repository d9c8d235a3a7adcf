use enclave::error::Error;
use enclave::memory::locked_buffer::{
    zeroize_all_registered_at_shutdown, BufferRegistry, LockedBuffer,
};
use enclave::memory::secure_buffer::SecureBuffer;

#[test]
fn zeroize_at_shutdown_does_not_panic_on_dead_weaks() {
    let mut registry = BufferRegistry::new();
    let buf = LockedBuffer::new(32, &mut registry).unwrap();
    buf.write(&[0xAB_u8; 32], &mut registry);
    let _ = buf.close(&mut registry);
    zeroize_all_registered_at_shutdown(&mut registry);
}

#[test]
fn zeroize_at_shutdown_zeroes_live_buffer() {
    let mut registry = BufferRegistry::new();
    let buf = LockedBuffer::new(32, &mut registry).unwrap();
    buf.write(&[0xAB_u8; 32], &mut registry);
    zeroize_all_registered_at_shutdown(&mut registry);
    let g = buf.bytes_zeroizing(&registry);
    assert!(
        g.as_slice().iter().all(|&b| b == 0),
        "buffer must be zeroed after shutdown call"
    );
}

#[test]
fn shutdown_zeroes_every_buffer_and_keeps_it_live() {
    let mut registry = BufferRegistry::new();
    let one = LockedBuffer::from_bytes(b"one", &mut registry).unwrap();
    let two = LockedBuffer::from_bytes(b"two!", &mut registry).unwrap();
    two.freeze(&mut registry).unwrap();
    zeroize_all_registered_at_shutdown(&mut registry);
    assert_eq!(one.bytes_zeroizing(&registry).as_slice(), [0_u8; 3].as_ref());
    assert_eq!(two.bytes_zeroizing(&registry).as_slice(), [0_u8; 4].as_ref());
    assert!(one.is_alive(&registry));
    two.write(b"next", &mut registry);
    assert_eq!(two.bytes_zeroizing(&registry).as_slice(), b"next");
    zeroize_all_registered_at_shutdown(&mut registry);
    assert_eq!(two.bytes_zeroizing(&registry).as_slice(), [0_u8; 4].as_ref());
}

#[test]
fn new_buffer_is_zeroed() {
    let mut registry = BufferRegistry::new();
    let buffer = LockedBuffer::new(7, &mut registry).unwrap();
    assert_eq!(buffer.size(&registry), 7);
    assert_eq!(buffer.bytes_zeroizing(&registry).as_slice(), [0_u8; 7].as_ref());
    let empty = LockedBuffer::new(0, &mut registry).unwrap();
    assert_eq!(empty.size(&registry), 0);
}

#[test]
fn random_buffers_differ() {
    let mut registry = BufferRegistry::new();
    let a = LockedBuffer::random(32, &mut registry).unwrap();
    let b = LockedBuffer::random(32, &mut registry).unwrap();
    assert_eq!(a.size(&registry), 32);
    assert_ne!(
        a.bytes_zeroizing(&registry).as_slice(),
        b.bytes_zeroizing(&registry).as_slice()
    );
}

#[test]
fn scrambling_changes_a_melted_buffer_only() {
    let mut registry = BufferRegistry::new();
    let buffer = LockedBuffer::from_bytes(&[1; 32], &mut registry).unwrap();
    buffer.freeze(&mut registry).unwrap();
    assert_eq!(
        buffer.scramble(&mut registry),
        Err(Error::Memory("SecureBuffer: buffer frozen".into()))
    );
    assert_eq!(buffer.bytes_zeroizing(&registry).as_slice(), [1_u8; 32].as_ref());
    buffer.melt(&mut registry).unwrap();
    assert_eq!(buffer.scramble(&mut registry), Ok(()));
    assert_ne!(buffer.bytes_zeroizing(&registry).as_slice(), [1_u8; 32].as_ref());
    assert_eq!(buffer.size(&registry), 32);
}

#[test]
fn bytes_are_copied_in_and_out() {
    let mut registry = BufferRegistry::new();
    let source = vec![3_u8, 1, 4, 1, 5];
    let buffer = LockedBuffer::from_bytes(&source, &mut registry).unwrap();
    assert_eq!(buffer.bytes_zeroizing(&registry).as_slice(), source.as_slice());
}

#[test]
fn wiping_reaches_frozen_buffers_and_no_others() {
    let mut registry = BufferRegistry::new();
    let kept = LockedBuffer::from_bytes(b"kept", &mut registry).unwrap();
    let gone = LockedBuffer::from_bytes(b"gone", &mut registry).unwrap();
    gone.freeze(&mut registry).unwrap();
    gone.wipe(&mut registry);
    assert_eq!(gone.bytes_zeroizing(&registry).as_slice(), [0_u8; 4].as_ref());
    assert_eq!(kept.bytes_zeroizing(&registry).as_slice(), b"kept");
    gone.write(b"back", &mut registry);
    assert_eq!(gone.bytes_zeroizing(&registry).as_slice(), b"back");
}

#[test]
fn closing_wipes_and_leaves_the_others() {
    let mut registry = BufferRegistry::new();
    let first = LockedBuffer::from_bytes(b"first", &mut registry).unwrap();
    let second = LockedBuffer::from_bytes(b"second", &mut registry).unwrap();
    let remains = first.close(&mut registry);
    assert_eq!(remains.as_slice(), [0_u8; 5].as_ref());
    assert_eq!(second.bytes_zeroizing(&registry).as_slice(), b"second");
}

#[test]
fn log_text_of_a_handle() {
    let mut registry = BufferRegistry::new();
    let first = LockedBuffer::from_bytes(b"secret", &mut registry).unwrap();
    assert_eq!(first.debug_text(), "LockedBuffer { id: 1 }");
    let _ = first.close(&mut registry);
    for _ in 0..8 {
        let _ = LockedBuffer::new(1, &mut registry).unwrap();
    }
    let tenth = LockedBuffer::new(1, &mut registry).unwrap();
    assert_eq!(tenth.debug_text(), "LockedBuffer { id: 10 }");
}

#[test]
fn impossible_sizes_are_refused() {
    let mut registry = BufferRegistry::new();
    let too_large = Error::Memory("SecureBuffer: size too large".into());
    assert_eq!(
        LockedBuffer::new(usize::MAX, &mut registry).map(|b| b.size(&registry)).unwrap_err(),
        too_large
    );
    assert_eq!(
        LockedBuffer::random(usize::MAX, &mut registry).map(|b| b.debug_text()),
        Err(Error::Memory("SecureBuffer: size too large".into()))
    );
}

#[test]
fn destroyed_buffer_neither_freezes_nor_melts() {
    let mut buffer = SecureBuffer::new(3).unwrap();
    buffer.bytes().copy_from_slice(&[1, 2, 3]);
    assert_eq!(buffer.freeze(), Ok(()));
    buffer.destroy();
    let destroyed = Err(Error::Memory("SecureBuffer: buffer destroyed".into()));
    assert_eq!(buffer.freeze(), destroyed);
    assert_eq!(buffer.melt(), destroyed);
    assert_eq!(buffer.scramble(), destroyed);
    assert!(!buffer.is_alive());
    assert_eq!(buffer.size(), 0);
    buffer.wipe();
    assert!(!buffer.is_alive());
}
