[package]
name = "sbom_insight"
version = "0.1.0"
edition = "2021"
publish = false

[dependencies]
anyhow = "=1.0.104"
async-trait = "=0.1.92"
bzip2 = "=0.6.1"
cpe = "=0.1.5"
csaf = { version = "=0.5.0", default-features = false }
csaf-walker = { version = "=0.5.4", default-features = false, features = ["crypto-openssl"] }
env_logger = "=0.11.11"
flate2 = "=1.1.10"
indicatif = { version = "=0.18.6", features = ["rayon"] }
indicatif-log-bridge = "=0.2.3"
log = "=0.4.34"
quick-xml = { version = "=0.42.0", features = ["serialize"] }
rayon = "=1.12.0"
serde = { version = "=1.0.229", features = ["derive"] }
serde_json = "=1.0.154"
spdx-rs = "=0.5.5"
tokio = { version = "=1.54.1", features = ["macros", "rt-multi-thread", "sync"] }
walker-common = { version = "=0.5.4", default-features = false }
