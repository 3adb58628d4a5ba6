[package]
name = "seaki"
version = "0.1.0"
edition = "2021"
publish = false

[dependencies]
uuid = { version = "1", features = ["v4"] }
chrono = { version = "0.4", features = ["serde"] }
sha2 = "0.10"
hex = "0.4"
mime_guess = "2"
whoami = "1"
serde = { version = "1", features = ["derive"] }
serde_json = "1"
tokio = { version = "1", features = ["full"] }
warp = { version = "0.3", default-features = false, features = ["multipart"] }
reqwest = { version = "0.11", default-features = false, features = ["json", "multipart"] }
local-ip-address = "0.6"
mdns = "3"
futures-util = "0.3"
