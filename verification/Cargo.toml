[package]
name = "snmpsim"
version = "0.1.0"
edition = "2021"
publish = false

[dependencies]
hex = "=0.4.3"
bzip2 = "=0.4.4"
clap = { version = "=4.6.7", features = ["derive"] }
thiserror = "=1.0.69"
tokio = { version = "=1.54.1", features = ["rt-multi-thread", "macros", "net", "time"] }
tracing = "=0.1.44"
tracing-subscriber = { version = "=0.3.23", features = ["env-filter", "fmt"] }
serde_json = "=1.0.154"
md5 = "0.7"
