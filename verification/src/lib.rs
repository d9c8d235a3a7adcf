//! Building blocks for keeping secrets of an application: sealed in-memory
//! secrets, locked buffers, platform authentication, metadata integrity and
//! the Windows fallbacks for hosts without a usable TPM or Windows Hello.
//!
//! The crate holds the decisions and the data; a program around it performs
//! the system calls and hands their results over as plain values.

pub mod auth;
pub mod bytes;
pub mod dpapi_fallback;
pub mod error;
pub mod memory;
pub mod outside;
pub mod password_gate;
pub mod platform;
pub mod text;
pub mod utf16;
