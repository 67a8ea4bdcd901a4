[package]
name = "doclayer"
version = "0.1.0"
edition = "2021"
publish = false

[dependencies]
async-trait = "=0.1.92"
bson = { version = "=3.1.0", features = ["serde"] }
mea = "=0.6.7"
serde = { version = "=1.0.229", features = ["derive"] }
serde_json = "=1.0.151"
thiserror = "=2.0.21"
