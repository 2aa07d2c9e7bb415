[package]
name = "test_reactor"
version = "0.1.0"
edition = "2021"
publish = false

[dependencies]
anyhow = "1"
clap = { version = "4", features = ["derive"] }
tokio = { version = "1", features = ["macros", "rt-multi-thread", "io-util"] }
wasmtime = { version = "12", features = ["component-model", "async"] }
wasmtime-wasi = { version = "12" }
