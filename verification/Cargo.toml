[package]
name = "candouble"
version = "0.1.0"
edition = "2021"
publish = false

[dependencies]
futures = "0.1"
getopts = "0.2"
gotham = "0.3"
gotham_derive = "0.3"
hyper = "0.12"
libc = "0.2"
mime = "0.3"
serde = { version = "1", features = ["derive"] }
serde_derive = "1"
serde_json = "1"
