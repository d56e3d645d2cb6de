[package]
name = "binius"
version = "0.1.0"
edition = "2021"
publish = false

[dependencies]
bytes = "=1.12.1"
cranelift-entity = "=0.128.4"
thiserror = "=2.0.21"

[dev-dependencies]
rand = "=0.10.3"
sha3 = "=0.12.0"
