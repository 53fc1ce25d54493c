[package]
name = "azure_pim_cli"
version = "0.1.0"
edition = "2021"
publish = false

[dependencies]
anyhow = "1"
azure_core = "*"
azure_identity = "*"
azure-identity-helpers = "*"
base64 = "0.22"
clap = { version = "4", features = ["derive"] }
clap_complete = "4"
derive_setters = "*"
exponential-backoff = "2"
futures = "0.3"
home = "*"
humantime = "2"
ratatui = "*"
rayon = "1"
reqwest = { version = "0.12", features = ["json", "blocking"] }
semver = "1"
serde = { version = "1", features = ["derive"] }
serde_json = "1"
thiserror = "*"
tokio = { version = "1", features = ["full"] }
tracing = "0.1"
tracing-subscriber = { version = "0.3", features = ["env-filter"] }
uuid = { version = "1", features = ["v4", "v7", "serde"] }
