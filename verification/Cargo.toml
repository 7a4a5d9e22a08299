[package]
name = "repox"
version = "0.1.0"
edition = "2021"
publish = false

[dependencies]
clap = { version = "4", features = ["derive"] }
gix = { version = "*", features = ["blocking-network-client"] }
miette = "*"
quick-xml = { version = "*", features = ["serialize"] }
serde = { version = "1", features = ["derive"] }
thiserror = "*"
tracing = "0.1"
tracing-subscriber = "0.3"
