[package]
name = "enclave"
version = "0.1.0"
edition = "2021"
publish = false

[dependencies]
aes-gcm = { version = "0.10", features = ["zeroize"] }
rand = "0.9"
tracing = "0.1"
windows = { version = "0.61", features = ["Win32_Foundation", "Win32_Graphics_Gdi", "Win32_Security", "Win32_Security_Credentials", "Win32_System_Com", "Win32_System_Registry"] }
zeroize = "1"
