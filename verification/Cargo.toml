[package]
name = "bedrock_repacker"
version = "0.1.0"
edition = "2021"
publish = false

[dependencies]
aes = "0.8"
clap = { version = "4", features = ["derive"] }
futures-util = "0.3"
hex = "0.4"
once_cell = "1"
rayon = "1"
reqwest = { version = "0.12", default-features = false, features = ["rustls-tls", "stream"] }
tokio = { version = "1", features = ["macros", "rt-multi-thread"] }
tracing = "0.1"
tracing-subscriber = "0.3"
uuid = "1"
