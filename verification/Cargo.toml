[package]
name = "event_router"
version = "0.1.0"
edition = "2021"
publish = false

[dependencies]
rosc = "*"
kanal = "*"
tokio = { version = "1", features = ["rt-multi-thread"] }
once_cell = "1"
parking_lot = "0.12"
bincode = "1.3"
serde = "1"
bytes = "1"
thiserror = "1"
log = "0.4"
