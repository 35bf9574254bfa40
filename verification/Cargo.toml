[package]
name = "blinkybot"
version = "0.1.0"
edition = "2021"
publish = false

[dependencies]
postcard = { version = "1", features = ["alloc"] }
serde = { version = "1", features = ["derive"] }
sequential-storage = "*"
embedded-storage-async = "*"
embassy-sync = "*"
embassy-futures = "*"
embassy-time = "*"
embedded-hal-async = "*"
oorandom = "11"
