[package]
name = "viperstem"
version = "0.1.0"
edition = "2021"
publish = false

[dependencies]
x86_64 = { version = "=0.14.13", default-features = false, features = ["instructions"] }
limine = "=0.5.0"
conquer-once = { version = "=0.4.0", default-features = false }
font8x8 = { version = "=0.3.1", default-features = false, features = ["unicode"] }
spinning_top = "=0.2.5"
