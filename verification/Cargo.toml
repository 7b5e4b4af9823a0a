[package]
name = "routing"
version = "0.1.0"
edition = "2021"
publish = false

[dependencies]
cbor = "=0.4.1"
rustc-serialize = "=0.3.25"
lru_time_cache = "=0.11.11"
message_filter = "=0.6.0"
rand = "=0.10.3"
time = "=0.1.45"
sodiumoxide = "=0.2.7"
crust = "=0.4.2"
