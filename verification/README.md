# enclave

Building blocks for an application that keeps secrets: sealed secrets in memory,
buffers that are wiped at shutdown, presence checks, the integrity of key
metadata, and the decision whether Windows may fall back from a TPM to DPAPI.

`src/` is the library. Its functions state what they do in `requires` and
`ensures`, and Verus proves it. What it relies on without proof stands in
`src/outside.rs` (cipher, random numbers, scrubbing of memory) and, for the
standard library, in `src/text.rs` and `src/utf16.rs`.

| module | what it holds |
| --- | --- |
| `memory::memory_enclave` | secrets sealed with AES-256-GCM, and the vault they share |
| `memory::history` | what holds of a vault over any sequence of operations |
| `memory::pool` | slots, master key and the cache of opened secrets |
| `memory::nonce` | nonces that do not repeat |
| `memory::locked_buffer`, `memory::secure_buffer` | buffers for secrets and their registry |
| `dpapi_fallback` | detection of virtual machines and the fallback decision |
| `password_gate` | the account-password presence check |
| `platform` | stores, metadata integrity, search for the TPM bridge, backends |
| `auth` | what the platform's authentication offers |
| `text`, `utf16`, `bytes` | text, UTF-16 and little-endian bytes |

`app/` is the process around the library: global state, system calls, and the
traits of the standard library that callers expect. `tests/` runs the library.
