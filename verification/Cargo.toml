[package]
name = "gmap"
version = "0.1.0"
edition = "2021"
rust-version = "1.95"
publish = false

[dependencies]
chrono = "=0.4.45"
gix = { version = "=0.72.1", default-features = false, features = ["revision", "blob-diff"] }
indicatif = "=0.17.11"
kstring = "=2.0.2"
similar = "=2.7.0"
