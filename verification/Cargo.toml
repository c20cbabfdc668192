[package]
name = "mozdef_proxy"
version = "0.1.0"
edition = "2021"
publish = false

[dependencies]
chrono = "0.4"
iron = "0.6"
bodyparser = "0.8"
clap = "2"
env_logger = "0.6"
log = "0.4"
futures = "0.1"
rusoto_core = "0.42"
rusoto_credential = "0.42"
rusoto_sqs = "0.42"

[dev-dependencies]
serde_json = "1"
