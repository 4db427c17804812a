[package]
name = "wt_ballistics_calc"
version = "0.1.0"
edition = "2021"
publish = false

[dependencies]
zip = { version = "*", default-features = false }
pad = "*"
serde = { version = "*", features = ["derive"] }
serde_json = "*"
plotters = "*"

[dev-dependencies]
toml = "*"
