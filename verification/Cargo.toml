[package]
name = "lazypb"
version = "0.1.0"
edition = "2021"
publish = false

[dependencies]
anyhow = "1"
bytes = "1"
proc-macro2 = "1"
prost = { version = "0.10", default-features = false, features = ["std"] }
quote = "1"
syn = { version = "1", features = ["full", "extra-traits"] }
thiserror = "1"

[dev-dependencies]
prost-types = "0.10"
