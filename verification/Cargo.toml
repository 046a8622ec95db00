[package]
name = "ipc_teal"
version = "0.1.0"
edition = "2021"
publish = false

[dependencies]
memfile = "*"
memmap2 = "*"
tokio = { version = "1", features = ["rt", "net", "time", "macros", "sync", "io-util"] }
tokio-seqpacket = "*"
tokio-util = "*"
