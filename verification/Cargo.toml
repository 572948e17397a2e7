[package]
name = "aleo_prover_actor"
version = "0.1.0"
edition = "2021"
publish = false

[dependencies]
ansi_term = "=0.12.1"
anyhow = "=1.0.104"
futures-util = { version = "=0.3.34", features = ["sink"] }
log = "=0.4.35"
rand = "=0.10.3"
rayon = "=1.12.0"
snarkvm = { version = "=4.9.1", default-features = false, features = ["console"] }
structopt = "=0.3.26"
tokio = { version = "=1.54.1", features = ["full"] }
tokio-stream = "=0.1.19"
tokio-util = { version = "=0.7.20", features = ["codec"] }
tracing = "=0.1.44"
tracing-subscriber = { version = "=0.3.23", features = ["env-filter"] }
