[package]
name = "spark_codecs"
version = "0.1.0"
edition = "2021"
publish = false

[dependencies]
bytes = "1"
smallvec = "1"
spin = "0.9"
parking_lot = "0.12"
syn = { version = "2", features = ["full"] }
quote = "1"
proc-macro2 = "1"
arbitrary = { version = "1", features = ["derive"] }
libfuzzer-sys = "0.4"
