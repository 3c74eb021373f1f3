[package]
name = "cutile"
version = "0.1.0"
edition = "2021"
publish = false

[dependencies]
rustc-hash = "2"
sha2 = "0.10"
convert_case = "0.8"
syn = { version = "2", features = ["full", "extra-traits", "visit", "visit-mut"] }
quote = "1"
proc-macro2 = { version = "1", features = ["span-locations"] }
