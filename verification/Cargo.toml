[package]
name = "ksm_regulator"
version = "0.1.0"
edition = "2021"
publish = false

[dependencies]
anyhow = "1"
async-ctrlc = "*"
async-std = { version = "1", features = ["attributes"] }
futures = "0.3"
interpolation = "*"
log = "*"
serde-hjson = "*"
stderrlog = "*"
structopt = "0.3"
sys-info = "*"
