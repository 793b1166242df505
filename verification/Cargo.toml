[package]
name = "ink_log"
version = "0.1.0"
edition = "2021"
publish = false

[dependencies]
chrono = { version = "=0.4.45", default-features = false, features = ["clock", "std"] }
colored = "=2.2.0"
frame-support = { version = "*", default-features = false }
ink_env = "=3.4.0"
ink_lang = "=3.4.0"
ink_prelude = "=3.4.0"
log = "=0.4.34"
pallet-contracts = { version = "*", default-features = false }
parity-scale-codec = { version = "=3.7.5", features = ["derive"] }
scale-info = { version = "=2.11.6", features = ["derive"] }
