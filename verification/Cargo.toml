[package]
name = "og_backend"
version = "0.1.0"
edition = "2021"
publish = false

[dependencies]
candid = "*"
ic-cdk = "*"
ic-cdk-macros = "*"
serde = { version = "*", features = ["derive"] }
serde_json = "*"
sha2 = "*"
time = { version = "*", features = ["formatting", "parsing"] }
