[package]
name = "synth"
version = "0.0.1"
edition = "2021"
publish = false

[dependencies]
clap = { version = "4", features = ["derive"] }
env_logger = "0.10"
llvm-sys = "170"
log = "0.4"
