[package]
name = "sc_position_helper"
version = "0.1.0"
edition = "2021"
publish = false

[dependencies]
clipboard = "0.5"
colored = "2"
tokio = { version = "1", features = ["macros", "rt-multi-thread", "time"] }
