[package]
name = "utxo_chain"
version = "0.1.0"
edition = "2021"
publish = false

[dependencies]
sha2 = "0.10"
ripemd = "0.1"
num-bigint = "0.4"
p256 = "0.11"
rand_core = { version = "0.6", features = ["getrandom"] }
bs58 = "0.4"
hex = "0.4"
serde = { version = "1", features = ["derive"] }
serde_json = "1"
serde_with = { version = "3", features = ["hex"] }
kv = { version = "0.24", features = ["json-value"] }
actix-web = { version = "4", default-features = false, features = ["macros"] }
