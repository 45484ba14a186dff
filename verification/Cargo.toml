[package]
name = "astral_kernel"
version = "0.1.0"
edition = "2021"
publish = false

[dependencies]
spin = "=0.12.3"
x86_64 = { version = "=0.15.5", default-features = false, features = ["instructions"] }
lazy_static = { version = "=1.5.1", features = ["spin_no_std"] }
limine = "=0.5.0"
noto-sans-mono-bitmap = { version = "=0.4.0", features = ["size_20"] }
