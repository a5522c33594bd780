[package]
name = "blockstore"
version = "0.1.0"
edition = "2021"
publish = false

[dependencies]
cid = "0.11"
multihash = "0.19"
sha2 = "0.10"

[dev-dependencies]
rand = "0.9"
