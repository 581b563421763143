[package]
name = "nenya"
version = "0.1.0"
edition = "2021"
publish = false

[dependencies]
num-traits = "0.2"
hostname = "0.4"
prost = "0.13"
tokio = { version = "1", features = ["macros", "rt-multi-thread", "sync"] }
tonic = "0.12"
