[package]
name = "promplot"
version = "0.1.0"
edition = "2021"
publish = false

[dependencies]
clap = { version = "*", features = ["derive"] }
crossterm = "*"
jiff = "*"
miette = "*"
owo-colors = "*"
prometheus-http-query = "*"
ratatui = "*"
rgb = "*"
textplots = "*"
tokio = { version = "*", features = ["macros", "rt-multi-thread"] }
