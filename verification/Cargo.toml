[package]
name = "pollsync"
version = "0.1.0"
edition = "2021"
publish = false

[dependencies]
teloxide = { version = "=0.12.2", default-features = false, features = ["macros", "ctrlc_handler", "rustls"] }
tokio = { version = "=1.53.2", features = ["rt-multi-thread", "macros"] }
dptree = "=0.3.0"
log = "=0.4.34"
pretty_env_logger = "=0.5.0"
lazy_static = "=1.5.1"
takecell = "=0.1.1"
