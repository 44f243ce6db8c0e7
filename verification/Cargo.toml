[package]
name = "lcmspector"
version = "0.1.0"
edition = "2021"
publish = false

[dependencies]
futures = "=0.3.34"
indicatif = "=0.18.6"
mzdata = { version = "=0.67.4", default-features = false, features = ["mzml", "mgf", "miniz_oxide"] }
ndarray = "=0.17.2"
num_cpus = "=1.17.0"
rayon = "=1.12.0"
serde_json = "=1.0.154"
tokio = { version = "=1.54.1", features = ["rt-multi-thread"] }
