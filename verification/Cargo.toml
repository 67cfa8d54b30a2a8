[package]
name = "hud"
version = "0.1.0"
edition = "2021"
publish = false

[dependencies]
addr2line = "0.24"
gimli = "0.31"
object = "0.36"
rustc-demangle = "0.1"
anyhow = "1"
thiserror = "1"
log = "0.4"
env_logger = "0.11"
clap = { version = "4", features = ["derive"] }
crossbeam-channel = "0.5"
crossterm = "0.28"
ratatui = "0.29"
serde = { version = "1", features = ["derive"] }
serde_json = "1"
tokio = { version = "1", features = ["macros", "rt-multi-thread", "signal", "time"] }
libc = "0.2"
aya = "0.13"
aya-log = "0.2"
