[package]
name = "lc3_tui"
version = "0.1.0"
edition = "2021"
publish = false

[dependencies]
tui = { version = "=0.9.5", default-features = false, features = ["crossterm"] }
crossterm = "=0.17.7"
anyhow = "1"
structopt = "0.3"
lazy_static = "1"
lc3-isa = "=0.1.0-alpha0"
