[package]
name = "coretime_market"
version = "0.1.0"
edition = "2021"
publish = false

[dependencies]
frame-support = { version = "*", default-features = false }
pallet-asset-tx-payment = { version = "*", default-features = false }
sp-arithmetic = "=29.0.0"
sp-runtime = { version = "*", default-features = false }
sp-weights = { version = "*", default-features = false }
staging-xcm = { version = "*", default-features = false }
staging-xcm-executor = { version = "*", default-features = false }
