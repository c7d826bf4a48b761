[package]
name = "horace"
version = "0.1.0"
edition = "2021"
publish = false

[dependencies]
chrono = "=0.4.45"
rand = "=0.5.6"
postgres = { version = "=0.19.14", features = ["with-chrono-0_4"] }
r2d2 = "=0.8.10"
r2d2_postgres = "=0.18.2"
typemap = "=0.3.3"
log = "=0.4.35"
env_logger = "=0.5.13"
