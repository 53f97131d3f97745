[package]
name = "splengine"
version = "0.1.0"
edition = "2021"
publish = false

[dependencies]
tokio = { version = "1", features = ["sync", "io-util", "io-std", "net", "time", "macros", "rt"] }
openssh = "*"
trait-variant = "0.1"
