[package]
name = "bevy_r_place"
version = "0.1.0"
edition = "2021"
publish = false

[dependencies]
solana-program = "2"
serde = { version = "1", features = ["derive"] }
serde_json = "1"
thiserror = "1"
cbor4ii = { version = "0.3", features = ["serde1", "use_std"] }
bincode2 = "2"
async-channel = "2"
async-trait = "0.1"
futures = "0.3"
tokio = { version = "1", features = ["rt-multi-thread", "macros", "time", "net", "io-util", "sync"] }
image = { version = "0.25", default-features = false, features = ["png"] }

[dev-dependencies]
borsh = "1"
