[package]
name = "ixo-swap"
version = "0.1.0"
edition = "2021"
publish = false

[dependencies]
cosmwasm-std = { version = "=1.5.11", features = ["stargate"] }
cosmwasm-schema = "=1.5.11"
cw-storage-plus = "=1.2.0"
cw2 = "=1.1.2"
cw20 = "=1.1.2"
cw20-base = { version = "=1.1.2", features = ["library"] }
cw-utils = "=1.0.3"
serde = { version = "=1.0.229", default-features = false, features = ["derive"] }
schemars = "=0.8.22"
thiserror = "=1.0.69"
prost = "=0.12.6"
sha2 = "=0.10.9"
base64ct = { version = "=1.8.3", features = ["alloc"] }
