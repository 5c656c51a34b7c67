[package]
name = "midi_timeline"
version = "0.1.0"
edition = "2021"
publish = false

[dependencies]
anyhow = "1"
clap = { version = "4", features = ["derive"] }
cpal = "0.15"
fluidlite = "0.2"
midly = { version = "0.5", default-features = false, features = ["alloc", "std"] }
