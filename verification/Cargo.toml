[package]
name = "stableswap_math"
version = "0.1.0"
edition = "2021"
publish = false

[dependencies]
primitive-types = "*"
serde = { version = "*", features = ["derive"] }
serde_json = "*"
serde-aux = "*"

[dev-dependencies]
hydra-dx-math = "*"
sp-arithmetic = "*"
