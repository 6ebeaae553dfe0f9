[package]
name = "kernel"
version = "0.1.0"
edition = "2021"
publish = false

[dependencies]
bootloader = "=0.9.35"
crossbeam-queue = { version = "=0.3.14", default-features = false, features = ["alloc"] }
ed25519-dalek = { version = "=1.0.1", default-features = false, features = ["u64_backend", "alloc"] }
lazy_static = { version = "=1.5.1", features = ["spin_no_std"] }
spin = "=0.9.9"
x86_64 = "0.15"
