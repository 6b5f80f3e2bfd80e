[package]
name = "qkaledioscope"
version = "0.1.0"
edition = "2021"
publish = false

[dependencies]
clap = { version = "=3.2.25", features = ["derive"] }
either = "=1.19.0"
inkwell = { version = "=0.1.1", features = ["llvm14-0-no-llvm-linking"] }
miette = "=5.10.0"
pest = { version = "=2.9.4", features = ["pretty-print"] }
pest_derive = "=2.9.4"
serde = { version = "=1.0.229", features = ["derive"] }
serde_json = "=1.0.154"
thiserror = "=1.0.69"
