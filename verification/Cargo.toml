[package]
name = "wg_quic_differentiator"
version = "0.1.0"
edition = "2021"
publish = false

[dependencies]
tokio = { version = "1", features = ["macros", "net", "rt-multi-thread", "sync", "time"] }
