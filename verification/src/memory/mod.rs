//! Secrets in memory: buffers, the pool of slots, and sealed secrets.

pub mod history;
pub mod locked_buffer;
pub mod memory_enclave;
pub mod nonce;
pub mod pool;
pub mod secure_buffer;

