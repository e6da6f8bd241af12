[package]
name = "palladiumos"
version = "0.2.0"
edition = "2021"
publish = false

[dependencies]
spin = "=0.9.9"
lazy_static = "=1.5.1"
pc-keyboard = "=0.7.0"
crossbeam-queue = "=0.3.14"
conquer-once = "=0.4.0"
futures-util = "=0.3.34"
x86_64 = { version = "=0.14.13", default-features = false, features = ["instructions"] }
