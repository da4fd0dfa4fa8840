[package]
name = "quiche_perf"
version = "0.1.0"
edition = "2021"
publish = false

[dependencies]
boring = "=5.3.0"
clap = { version = "=4.6.7", features = ["derive"] }
env_logger = "=0.11.11"
log = "=0.4.34"
mio = { version = "=1.2.4", features = ["net", "os-ext", "os-poll"] }
quiche = { version = "=0.22.0", default-features = false }
url = "=2.5.8"

[dev-dependencies]
regex = "=1.13.1"
