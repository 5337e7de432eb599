[package]
name = "ring_buffer_macro"
version = "0.1.0"
edition = "2021"
publish = false

[dependencies]
proc-macro2 = { version = "1", features = ["span-locations"] }
quote = "1"
syn = { version = "2", features = ["full"] }
