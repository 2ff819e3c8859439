[package]
name = "carrot-utils"
version = "0.1.0"
edition = "2021"
publish = false

[dependencies]
chrono = "0.4"
confy = "0.6"
crossterm = "0.27"
libc = "0.2"
rand = "0.8"
serde = { version = "1", features = ["derive"] }
serde_derive = "1"
