[package]
name = "gluon_language_server"
version = "0.1.0"
edition = "2021"
publish = false

[dependencies]
bytes = "=1.12.1"
clap = "=4.6.7"
env_logger = "=0.11.11"
futures = "=0.3.34"
futures-cpupool = "=0.1.8"
gluon = { version = "=0.18.4", features = ["gluon_completion"] }
gluon_completion = "=0.18.4"
gluon_format = "=0.18.4"
jsonrpc-core = "=18.0.0"
languageserver-types = "=0.54.0"
log = "=0.4.34"
serde = { version = "=1.0.229", features = ["derive"] }
serde_derive = "=1.0.229"
serde_json = "=1.0.154"
tokio-core = "=0.1.18"
tokio-io = "=0.1.13"
url = "=1.7.2"
url_serde = "=0.2.0"
