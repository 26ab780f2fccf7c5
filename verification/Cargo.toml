[package]
name = "rusty_von_humboldt"
version = "0.1.0"
edition = "2021"
publish = false

[dependencies]
serde_json = "1"
chrono = "0.4"
md5 = "0.7"
flate2 = "1"
rand = "0.8"
rusoto_core = "0.42"
rusoto_s3 = "0.42"
