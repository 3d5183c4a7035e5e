[package]
name = "rds_discovery"
version = "0.1.0"
edition = "2021"
publish = false

[dependencies]
clap = "2"
rusoto_core = { version = "0.48", default-features = false, features = ["rustls"] }
rusoto_credential = "0.48"
rusoto_rds = { version = "0.48", default-features = false, features = ["rustls"] }
rusoto_sts = { version = "0.48", default-features = false, features = ["rustls"] }
tokio = { version = "1", features = ["rt", "macros"] }

[dev-dependencies]
serde_json = "1"
