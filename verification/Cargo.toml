[package]
name = "audiostream"
version = "0.1.0"
edition = "2021"
publish = false

[dependencies]
anyhow = "1"
audiopus = "0.2"
egui_dnd = "0.10"
egui_plot = "0.29"
quinn = { version = "0.11", default-features = false, features = ["runtime-tokio", "rustls-ring"] }
rcgen = "0.13"
ringbuf = "0.4"
rustls = { version = "0.23", default-features = false, features = ["ring", "std"] }
tokio = { version = "1", features = ["rt", "time", "io-util", "macros", "net"] }
