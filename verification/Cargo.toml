[package]
name = "collector"
version = "0.1.0"
edition = "2021"
publish = false

[dependencies]
anyhow = "1"
arrow-array = "*"
arrow-schema = "*"
cgroups-rs = "0.3"
clap = { version = "4", features = ["derive"] }
csv = "1"
humantime = "2"
libc = "0.2"
log = "0.4"
once_cell = "1"
parquet = { version = "*", default-features = false, features = ["arrow", "snap"] }
regex = "1"
semver = "1"
thiserror = "*"
tokio = { version = "1", features = ["full"] }
tokio-util = { version = "0.7", features = ["rt"] }
toml_edit = "0.22"
tqdm = "*"
tracing = "0.1"
tracing-subscriber = { version = "0.3", features = ["env-filter"] }
