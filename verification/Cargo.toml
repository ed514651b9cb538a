[package]
name = "roboprec"
version = "0.1.0"
edition = "2021"
publish = false

[dependencies]
rug = { version = "=1.19.2", default-features = false, features = ["integer", "rational"] }
gmp-mpfr-sys = { version = "1.5", default-features = false, features = ["use-system-libs"] }
indexmap = "=2.14.2"
anyhow = "=1.0.104"
log = "=0.4.34"
once_cell = "=1.21.4"
clap = { version = "=4.6.7", features = ["derive"] }
serde = { version = "=1.0.229", features = ["derive"] }
chrono = "=0.4.45"
fern = "=0.7.1"
