[package]
name = "wind"
version = "0.1.0"
edition = "2021"
publish = false

[dependencies]
clap = { version = "=4.6.7", features = ["derive"] }
codespan-reporting = "=0.13.1"
log = "=0.4.35"
log4rs = "=1.4.0"
