[package]
name = "ovn_core"
version = "0.1.0"
edition = "2021"
publish = false

[dependencies]
crc32c = "*"
hmac = "*"
sha2 = "*"
uuid = { version = "*", features = ["v4"] }
lz4_flex = "*"
zstd = "*"
zeroize = "*"
serde = { version = "*", features = ["derive"] }
serde_json = "*"
thiserror = "*"
libc = "*"
